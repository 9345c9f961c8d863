//! The record codec: what the bytes of a record are, and the executable
//! read and write procedures proved against that.
//!
//! `encode_*` give the exact byte sequence a value serializes to;
//! `decode_*` give the exact value a byte window deserializes to. Both are
//! parameterized by `native_le`, the machine byte order that `Native` (and
//! a primitive's own `Normal`) order resolves to.

use crate::bytes::{
    be_bytes_of, be_value_of, decode_uint_be, decode_uint_le, encode_uint_be, encode_uint_le,
    le_bytes_of, le_value_of, lemma_be_value_of_bound, lemma_le_value_of_bound,
    lemma_pow256_mono, pow256,
};
use crate::model::{
    elem_matches, elem_size, field_matches, field_size, fields_match, fields_size,
    lemma_models_of_index, lemma_models_of_push, len_of, models_of, prim_in_range, prim_size,
    record_matches, record_size, shape_count, zero_of_elem, zero_of_field, zero_of_fields,
    zero_of_record, ArrayLen, ByteOrder, ElemType, FieldSpec, Padding, PrimType, RecordSpec,
    Shape, Value, ValueModel,
};
use vstd::prelude::*;

verus! {

/// A failure of the generated procedures at run time.
#[derive(Clone, Copy, Debug, PartialEq, Eq)]
pub enum CodecError {
    /// The input ended before the record's full width was consumed.
    UnexpectedEnd,
    /// The value handed to `write` does not have the record's shape.
    ValueMismatch,
}

/// Whether order `o` resolves to little-endian on a machine whose native
/// order is little iff `native_le`. A primitive's own `Normal` codec is the
/// machine's native order, as `Native` requests explicitly.
pub open spec fn order_is_le(o: ByteOrder, native_le: bool) -> bool {
    match o {
        ByteOrder::Little => true,
        ByteOrder::Big => false,
        ByteOrder::Native => native_le,
        ByteOrder::Normal => native_le,
    }
}

/// The bytes of primitive value `n` of type `p` under order `o`.
pub open spec fn prim_bytes(p: PrimType, o: ByteOrder, native_le: bool, n: u64) -> Seq<u8> {
    if order_is_le(o, native_le) {
        le_bytes_of(prim_size(p), n as nat)
    } else {
        be_bytes_of(prim_size(p), n as nat)
    }
}

/// The primitive value of type `p` denoted by window `s` under order `o`.
pub open spec fn prim_value(p: PrimType, o: ByteOrder, native_le: bool, s: Seq<u8>) -> u64 {
    if order_is_le(o, native_le) {
        le_value_of(s) as u64
    } else {
        be_value_of(s) as u64
    }
}

/// The bytes of one element value.
pub open spec fn encode_elem(e: ElemType, native_le: bool, v: ValueModel) -> Seq<u8>
    decreases e, 0int,
{
    match e {
        ElemType::Prim(p, o) => match v {
            ValueModel::Uint(n) => prim_bytes(p, o, native_le, n),
            _ => prim_bytes(p, o, native_le, 0),
        },
        ElemType::Record(r) => encode_record(*r, native_le, v),
    }
}

/// The bytes of a list of element values, laid end to end.
pub open spec fn encode_elems(e: ElemType, native_le: bool, vs: Seq<ValueModel>) -> Seq<u8>
    decreases e, vs.len(),
{
    if vs.len() == 0 {
        Seq::empty()
    } else {
        encode_elem(e, native_le, vs[0]) + encode_elems(e, native_le, vs.drop_first())
    }
}

/// The bytes of one field's value: all-zero filler of the field's width for
/// a padding field, whatever the in-memory value; otherwise the element
/// encoding, repeated per the shape.
pub open spec fn encode_field(f: FieldSpec, native_le: bool, v: ValueModel) -> Seq<u8>
    decreases f, 1int,
{
    if f.pad is Some {
        Seq::new(field_size(f), |i: int| 0u8)
    } else {
        match f.shape {
            Shape::Scalar => encode_elem(f.elem, native_le, v),
            Shape::FixedArray(l) => match v {
                ValueModel::Array(es) => encode_elems(f.elem, native_le, es),
                _ => Seq::empty(),
            },
        }
    }
}

/// The bytes of a list of fields' values: the strict concatenation of each
/// field's encoding, in declared order.
pub open spec fn encode_fields(fs: Seq<FieldSpec>, native_le: bool, vs: Seq<ValueModel>) -> Seq<u8>
    decreases fs, 0int,
{
    if fs.len() == 0 {
        Seq::empty()
    } else {
        encode_field(fs[0], native_le, vs[0]) + encode_fields(
            fs.drop_first(),
            native_le,
            vs.drop_first(),
        )
    }
}

/// The bytes of a whole record value.
pub open spec fn encode_record(r: RecordSpec, native_le: bool, v: ValueModel) -> Seq<u8>
    decreases r, 2int,
{
    match v {
        ValueModel::Record(vs) => encode_fields(r.fields@, native_le, vs),
        _ => Seq::empty(),
    }
}

/// The element value denoted by window `s`.
pub open spec fn decode_elem(e: ElemType, native_le: bool, s: Seq<u8>) -> ValueModel
    decreases e, 0int,
{
    match e {
        ElemType::Prim(p, o) => ValueModel::Uint(prim_value(p, o, native_le, s)),
        ElemType::Record(r) => decode_record(*r, native_le, s),
    }
}

/// The first `k` element values denoted by `s`, each `elem_size(e)` bytes.
pub open spec fn decode_elems(e: ElemType, native_le: bool, k: nat, s: Seq<u8>) -> Seq<ValueModel>
    decreases e, k,
{
    if k == 0 {
        Seq::empty()
    } else {
        seq![decode_elem(e, native_le, s.take(elem_size(e) as int))] + decode_elems(
            e,
            native_le,
            (k - 1) as nat,
            s.skip(elem_size(e) as int),
        )
    }
}

/// The field value denoted by window `s`. A padding field decodes to the
/// zero value of its type, whatever the window holds.
pub open spec fn decode_field(f: FieldSpec, native_le: bool, s: Seq<u8>) -> ValueModel
    decreases f, 1int,
{
    if f.pad is Some {
        zero_of_field(f)
    } else {
        match f.shape {
            Shape::Scalar => decode_elem(f.elem, native_le, s),
            Shape::FixedArray(l) => ValueModel::Array(
                decode_elems(f.elem, native_le, len_of(l), s),
            ),
        }
    }
}

/// The field values denoted by `s`: each field takes its own width from the
/// front, in declared order.
pub open spec fn decode_fields(fs: Seq<FieldSpec>, native_le: bool, s: Seq<u8>) -> Seq<ValueModel>
    decreases fs, 0int,
{
    if fs.len() == 0 {
        Seq::empty()
    } else {
        seq![decode_field(fs[0], native_le, s.take(field_size(fs[0]) as int))] + decode_fields(
            fs.drop_first(),
            native_le,
            s.skip(field_size(fs[0]) as int),
        )
    }
}

/// The record value denoted by window `s`.
pub open spec fn decode_record(r: RecordSpec, native_le: bool, s: Seq<u8>) -> ValueModel
    decreases r, 2int,
{
    ValueModel::Record(decode_fields(r.fields@, native_le, s))
}

/// Relies on u16::to_ne_bytes: the machine encodes a value in its native
/// byte order, which is either little-endian or big-endian.
#[verifier::external_body]
fn ne_bytes_u16(x: u16) -> (r: [u8; 2])
    ensures
        r@ == le_bytes_of(2, x as nat) || r@ == be_bytes_of(2, x as nat),
{
    x.to_ne_bytes()
}

/// Whether this machine's native byte order is little-endian: the value to
/// hand the codec as `native_le` when `Native` (or a primitive's `Normal`)
/// should mean the running machine's own order.
pub fn native_is_little() -> (r: bool) {
    let b = ne_bytes_u16(1);
    proof {
        reveal_with_fuel(le_bytes_of, 3);
        reveal_with_fuel(be_bytes_of, 3);
    }
    b[0] == 1
}

/// The byte width of one primitive value, as a machine integer.
pub fn prim_width(p: PrimType) -> (w: usize)
    ensures
        w == prim_size(p),
        1 <= w <= 8,
{
    match p {
        PrimType::U8 => 1,
        PrimType::U16 => 2,
        PrimType::U32 => 4,
        PrimType::U64 => 8,
        PrimType::I8 => 1,
        PrimType::I16 => 2,
        PrimType::I32 => 4,
        PrimType::I64 => 8,
    }
}

/// The resolved element count of an array length, as a machine integer.
pub fn array_len(l: ArrayLen) -> (n: usize)
    ensures
        n == len_of(l),
{
    match l {
        ArrayLen::Lit(n) => n,
        ArrayLen::Sym(n) => n,
    }
}

/// Whether `n` is a valid wire pattern for primitive type `p`.
pub fn prim_fits(p: PrimType, n: u64) -> (b: bool)
    ensures
        b == prim_in_range(p, n),
{
    proof {
        crate::bytes::lemma_pow256_values();
    }
    match p {
        PrimType::U8 => n < 0x100,
        PrimType::U16 => n < 0x1_0000,
        PrimType::U32 => n < 0x1_0000_0000,
        PrimType::U64 => true,
        PrimType::I8 => n < 0x100,
        PrimType::I16 => n < 0x1_0000,
        PrimType::I32 => n < 0x1_0000_0000,
        PrimType::I64 => true,
    }
}

/// Whether order `o` resolves to little-endian.
pub fn order_le(o: ByteOrder, native_le: bool) -> (b: bool)
    ensures
        b == order_is_le(o, native_le),
{
    match o {
        ByteOrder::Little => true,
        ByteOrder::Big => false,
        ByteOrder::Native => native_le,
        ByteOrder::Normal => native_le,
    }
}

/// Whether `v` is a value of element type `e`.
pub fn elem_value_matches(e: &ElemType, v: &Value) -> (b: bool)
    ensures
        b == elem_matches(*e, v.model()),
    decreases e, 0int,
{
    match e {
        ElemType::Prim(p, _) => match v {
            Value::Uint(n) => prim_fits(*p, *n),
            _ => false,
        },
        ElemType::Record(r) => record_value_matches(r, v),
    }
}

/// Whether `v` is a value of the field `f`.
pub fn field_value_matches(f: &FieldSpec, v: &Value) -> (b: bool)
    ensures
        b == field_matches(*f, v.model()),
    decreases f, 1int,
{
    if f.pad.is_some() {
        return true;
    }
    match f.shape {
        Shape::Scalar => elem_value_matches(&f.elem, v),
        Shape::FixedArray(l) => match v {
            Value::Array(es) => {
                proof {
                    lemma_models_of_index(es@);
                }
                let n = array_len(l);
                if es.len() != n {
                    return false;
                }
                proof {
                    assert(v.model() == ValueModel::Array(models_of(es@)));
                }
                let mut idx: usize = 0;
                while idx < n
                    invariant
                        n == len_of(l),
                        es@.len() == n,
                        idx <= n,
                        f.shape == Shape::FixedArray(l),
                        f.pad is None,
                        v.model() == ValueModel::Array(models_of(es@)),
                        forall|k: int|
                            0 <= k < idx ==> elem_matches(f.elem, #[trigger] es@[k].model()),
                    decreases n - idx,
                {
                    if !elem_value_matches(&f.elem, &es[idx]) {
                        proof {
                            lemma_models_of_index(es@);
                            let ms = models_of(es@);
                            assert(v.model() == ValueModel::Array(ms));
                            assert(!elem_matches(f.elem, ms[idx as int]));
                            assert(!field_matches(*f, v.model()));
                        }
                        return false;
                    }
                    idx = idx + 1;
                }
                proof {
                    lemma_models_of_index(es@);
                }
                true
            },
            _ => false,
        },
    }
}

/// Whether the values `vs[i..]` fit the fields `fields[i..]`, in order.
pub fn fields_match_from(fields: &Vec<FieldSpec>, vs: &Vec<Value>, i: usize) -> (b: bool)
    requires
        i <= fields@.len(),
        i <= vs@.len(),
    ensures
        b == fields_match(fields@.skip(i as int), models_of(vs@).skip(i as int)),
    decreases fields, fields@.len() - i,
{
    proof {
        lemma_models_of_index(vs@);
    }
    let ghost ms = models_of(vs@);
    if i == fields.len() {
        return vs.len() == fields.len();
    }
    if vs.len() != fields.len() {
        return false;
    }
    let ok = field_value_matches(&fields[i], &vs[i]);
    proof {
        assert(fields@.skip(i as int)[0] == fields@[i as int]);
        assert(ms.skip(i as int)[0] == ms[i as int]);
    }
    if !ok {
        return false;
    }
    let rest = fields_match_from(fields, vs, i + 1);
    proof {
        assert(fields@.skip(i as int).drop_first() =~= fields@.skip(i + 1));
        assert(ms.skip(i as int).drop_first() =~= ms.skip(i + 1));
    }
    rest
}

/// Appends the encoding of one element value.
fn write_elem(e: &ElemType, native_le: bool, v: &Value, out: &mut Vec<u8>)
    requires
        elem_matches(*e, v.model()),
    ensures
        final(out)@ == old(out)@ + encode_elem(*e, native_le, v.model()),
    decreases e, 0int,
{
    match e {
        ElemType::Prim(p, o) => match v {
            Value::Uint(n) => {
                let w = prim_width(*p);
                if order_le(*o, native_le) {
                    encode_uint_le(*n, w, out);
                } else {
                    encode_uint_be(*n, w, out);
                }
            },
            _ => {
                proof {
                    assert(false);
                }
            },
        },
        ElemType::Record(r) => {
            write_record_into(r, native_le, v, out);
        },
    }
}

/// Appends `n` zero bytes.
fn write_zero_bytes(n: usize, out: &mut Vec<u8>)
    ensures
        final(out)@ == old(out)@ + Seq::new(n as nat, |i: int| 0u8),
    decreases n,
{
    let mut i: usize = 0;
    while i < n
        invariant
            i <= n,
            out@ == old(out)@ + Seq::new(i as nat, |j: int| 0u8),
        decreases n - i,
    {
        let ghost prev = out@;
        out.push(0u8);
        i = i + 1;
        proof {
            assert(out@ =~= old(out)@ + Seq::new(i as nat, |j: int| 0u8));
        }
    }
}

/// Appends the zero filler of one element: `elem_size` zero bytes.
fn write_zero_elem(e: &ElemType, out: &mut Vec<u8>)
    ensures
        final(out)@ == old(out)@ + Seq::new(elem_size(*e), |i: int| 0u8),
    decreases e, 0int,
{
    match e {
        ElemType::Prim(p, _) => {
            let w = prim_width(*p);
            write_zero_bytes(w, out);
        },
        ElemType::Record(r) => {
            write_zero_fields_from(&r.fields, 0, out);
            proof {
                assert(r.fields@.skip(0) =~= r.fields@);
            }
        },
    }
}

/// Appends the zero filler of one field: `field_size` zero bytes.
fn write_zero_field(f: &FieldSpec, out: &mut Vec<u8>)
    ensures
        final(out)@ == old(out)@ + Seq::new(field_size(*f), |i: int| 0u8),
    decreases f, 1int,
{
    match f.pad {
        Some(Padding::Explicit(n)) => {
            write_zero_bytes(n, out);
        },
        _ => {
            let count = match f.shape {
                Shape::Scalar => 1,
                Shape::FixedArray(l) => array_len(l),
            };
            let ghost es = elem_size(f.elem);
            let mut k: usize = 0;
            while k < count
                invariant
                    k <= count,
                    es == elem_size(f.elem),
                    out@ == old(out)@ + Seq::new((k * es) as nat, |j: int| 0u8),
                decreases count - k,
            {
                let ghost prev = out@;
                write_zero_elem(&f.elem, out);
                k = k + 1;
                proof {
                    assert((k - 1) * es + es == k * es) by (nonlinear_arith);
                    assert(out@ =~= old(out)@ + Seq::new((k * es) as nat, |j: int| 0u8));
                }
            }
            proof {
                assert(count * es == es * count) by (nonlinear_arith);
                assert(field_size(*f) == es * shape_count(f.shape));
            }
        },
    }
}

/// Appends the zero fillers of the fields `fields[i..]`, in order.
fn write_zero_fields_from(fields: &Vec<FieldSpec>, i: usize, out: &mut Vec<u8>)
    requires
        i <= fields@.len(),
    ensures
        final(out)@ == old(out)@ + Seq::new(fields_size(fields@.skip(i as int)), |j: int| 0u8),
    decreases fields, fields@.len() - i,
{
    if i == fields.len() {
        proof {
            assert(out@ =~= out@ + Seq::new(0, |j: int| 0u8));
        }
        return ;
    }
    let ghost before = out@;
    write_zero_field(&fields[i], out);
    write_zero_fields_from(fields, i + 1, out);
    proof {
        let tail = fields@.skip(i as int);
        assert(tail[0] == fields@[i as int]);
        assert(tail.drop_first() =~= fields@.skip(i + 1));
        assert(fields_size(tail) == field_size(fields@[i as int]) + fields_size(
            fields@.skip(i + 1),
        ));
        assert(out@ =~= before + Seq::new(fields_size(tail), |j: int| 0u8));
    }
}

/// Appends the encoding of one field's value: zero filler of the field's
/// width for a padding field, the repeated element encoding otherwise.
fn write_field(f: &FieldSpec, native_le: bool, v: &Value, out: &mut Vec<u8>)
    requires
        field_matches(*f, v.model()),
    ensures
        final(out)@ == old(out)@ + encode_field(*f, native_le, v.model()),
    decreases f, 2int,
{
    if f.pad.is_some() {
        write_zero_field(f, out);
        return ;
    }
    match f.shape {
        Shape::Scalar => {
            write_elem(&f.elem, native_le, v, out);
        },
        Shape::FixedArray(l) => match v {
            Value::Array(es) => {
                proof {
                    lemma_models_of_index(es@);
                    assert(v.model() == ValueModel::Array(models_of(es@)));
                }
                let ghost ms = models_of(es@);
                let n = es.len();
                let mut k: usize = 0;
                while k < n
                    invariant
                        k <= n,
                        n == es@.len(),
                        ms == models_of(es@),
                        forall|j: int| 0 <= j < n ==> elem_matches(f.elem, #[trigger] ms[j]),
                        out@ == old(out)@ + encode_elems(f.elem, native_le, ms.take(k as int)),
                    decreases n - k,
                {
                    let ghost before = out@;
                    proof {
                        lemma_models_of_index(es@);
                        assert(ms[k as int] == es@[k as int].model());
                        assert(elem_matches(f.elem, ms[k as int]));
                    }
                    write_elem(&f.elem, native_le, &es[k], out);
                    k = k + 1;
                    proof {
                        let cur = ms.take(k as int);
                        assert(cur.drop_last() =~= ms.take(k - 1));
                        lemma_encode_elems_push(f.elem, native_le, ms.take(k - 1), ms[k - 1]);
                        assert(cur =~= ms.take(k - 1).push(ms[k - 1]));
                        assert(out@ =~= old(out)@ + encode_elems(f.elem, native_le, cur));
                    }
                }
                proof {
                    assert(ms.take(n as int) =~= ms);
                }
            },
            _ => {
                proof {
                    assert(false);
                }
            },
        },
    }
}

/// Encoding one more element appends its bytes.
proof fn lemma_encode_elems_push(e: ElemType, native_le: bool, vs: Seq<ValueModel>, v: ValueModel)
    ensures
        encode_elems(e, native_le, vs.push(v)) =~= encode_elems(e, native_le, vs) + encode_elem(
            e,
            native_le,
            v,
        ),
    decreases vs.len(),
{
    let w = vs.push(v);
    if vs.len() == 0 {
        assert(w[0] == v);
        assert(w.drop_first() =~= Seq::<ValueModel>::empty());
        assert(encode_elems(e, native_le, w) == encode_elem(e, native_le, v) + encode_elems(
            e,
            native_le,
            w.drop_first(),
        ));
        assert(encode_elems(e, native_le, w.drop_first()) == Seq::<u8>::empty());
        assert(encode_elems(e, native_le, vs) == Seq::<u8>::empty());
    } else {
        lemma_encode_elems_push(e, native_le, vs.drop_first(), v);
        assert(w.drop_first() =~= vs.drop_first().push(v));
        assert(w[0] == vs[0]);
        assert(encode_elems(e, native_le, w) == encode_elem(e, native_le, vs[0]) + encode_elems(
            e,
            native_le,
            vs.drop_first().push(v),
        ));
    }
}

/// Appends the encodings of the values `vs[i..]` of fields `fields[i..]`.
fn write_fields_from(
    fields: &Vec<FieldSpec>,
    native_le: bool,
    vs: &Vec<Value>,
    i: usize,
    out: &mut Vec<u8>,
)
    requires
        i <= fields@.len(),
        i <= vs@.len(),
        fields_match(fields@.skip(i as int), models_of(vs@).skip(i as int)),
    ensures
        final(out)@ == old(out)@ + encode_fields(
            fields@.skip(i as int),
            native_le,
            models_of(vs@).skip(i as int),
        ),
    decreases fields, fields@.len() - i,
{
    proof {
        lemma_models_of_index(vs@);
    }
    let ghost ms = models_of(vs@);
    if i == fields.len() {
        proof {
            assert(out@ =~= out@ + encode_fields(
                fields@.skip(i as int),
                native_le,
                ms.skip(i as int),
            ));
        }
        return ;
    }
    let ghost before = out@;
    proof {
        assert(fields@.skip(i as int)[0] == fields@[i as int]);
        assert(ms.skip(i as int)[0] == ms[i as int]);
    }
    write_field(&fields[i], native_le, &vs[i], out);
    proof {
        assert(fields@.skip(i as int).drop_first() =~= fields@.skip(i + 1));
        assert(ms.skip(i as int).drop_first() =~= ms.skip(i + 1));
    }
    write_fields_from(fields, native_le, vs, i + 1, out);
    proof {
        assert(out@ =~= before + encode_fields(
            fields@.skip(i as int),
            native_le,
            ms.skip(i as int),
        ));
    }
}

/// Appends the encoding of a whole record value.
fn write_record_into(r: &RecordSpec, native_le: bool, v: &Value, out: &mut Vec<u8>)
    requires
        record_matches(*r, v.model()),
    ensures
        final(out)@ == old(out)@ + encode_record(*r, native_le, v.model()),
    decreases r, 3int,
{
    match v {
        Value::Record(vs) => {
            proof {
                assert(r.fields@.skip(0) =~= r.fields@);
                assert(models_of(vs@).skip(0) =~= models_of(vs@));
            }
            write_fields_from(&r.fields, native_le, vs, 0, out);
        },
        _ => {
            proof {
                assert(false);
            }
        },
    }
}

/// Writes record value `v` per description `r`: on success the bytes are
/// exactly the concatenation of each field's encoding in declared order;
/// a value that does not fit the description is rejected, and nothing else
/// is.
pub fn write_record(r: &RecordSpec, native_le: bool, v: &Value) -> (res: Result<
    Vec<u8>,
    CodecError,
>)
    ensures
        record_matches(*r, v.model()) ==> (res matches Ok(out) && out@ == encode_record(
            *r,
            native_le,
            v.model(),
        )),
        !record_matches(*r, v.model()) ==> (res matches Err(e) && e == CodecError::ValueMismatch),
{
    if record_value_matches(r, v) {
        let mut out: Vec<u8> = Vec::new();
        write_record_into(r, native_le, v, &mut out);
        proof {
            assert(out@ =~= encode_record(*r, native_le, v.model()));
        }
        Ok(out)
    } else {
        Err(CodecError::ValueMismatch)
    }
}

/// Builds the zero value of an element type.
fn zero_value_elem(e: &ElemType) -> (v: Value)
    ensures
        v.model() == zero_of_elem(*e),
    decreases e, 0int,
{
    match e {
        ElemType::Prim(..) => Value::Uint(0),
        ElemType::Record(r) => {
            let mut vals: Vec<Value> = Vec::new();
            push_zero_fields_from(&r.fields, 0, &mut vals);
            proof {
                assert(r.fields@.skip(0) =~= r.fields@);
                assert(models_of(vals@) =~= zero_of_fields(r.fields@));
            }
            Value::Record(vals)
        },
    }
}

/// Builds the zero value of one field.
fn zero_value_field(f: &FieldSpec) -> (v: Value)
    ensures
        v.model() == zero_of_field(*f),
    decreases f, 1int,
{
    match f.shape {
        Shape::Scalar => zero_value_elem(&f.elem),
        Shape::FixedArray(l) => {
            let n = array_len(l);
            let mut vals: Vec<Value> = Vec::new();
            let mut k: usize = 0;
            while k < n
                invariant
                    k <= n,
                    n == len_of(l),
                    vals@.len() == k,
                    forall|j: int|
                        0 <= j < k ==> #[trigger] models_of(vals@)[j] == zero_of_elem(f.elem),
                decreases n - k,
            {
                let ghost before = vals@;
                let zv = zero_value_elem(&f.elem);
                vals.push(zv);
                k = k + 1;
                proof {
                    lemma_models_of_push(before, vals@[k - 1]);
                    lemma_models_of_index(before);
                    lemma_models_of_index(vals@);
                }
            }
            proof {
                lemma_models_of_index(vals@);
                assert(models_of(vals@) =~= Seq::new(len_of(l), |j: int| zero_of_elem(f.elem)));
            }
            let v = Value::Array(vals);
            proof {
                assert(v.model() == ValueModel::Array(models_of(vals@)));
            }
            v
        },
    }
}

/// Appends the zero values of the fields `fields[i..]`, in order.
fn push_zero_fields_from(fields: &Vec<FieldSpec>, i: usize, vals: &mut Vec<Value>)
    requires
        i <= fields@.len(),
    ensures
        models_of(final(vals)@) == models_of(old(vals)@) + zero_of_fields(
            fields@.skip(i as int),
        ),
    decreases fields, fields@.len() - i,
{
    if i == fields.len() {
        proof {
            assert(models_of(vals@) =~= models_of(vals@) + Seq::<ValueModel>::empty());
        }
        return ;
    }
    let zv = zero_value_field(&fields[i]);
    let ghost before = vals@;
    vals.push(zv);
    proof {
        lemma_models_of_push(before, vals@[vals@.len() - 1]);
    }
    push_zero_fields_from(fields, i + 1, vals);
    proof {
        let tail = fields@.skip(i as int);
        assert(tail[0] == fields@[i as int]);
        assert(tail.drop_first() =~= fields@.skip(i + 1));
        assert(zero_of_fields(tail) == seq![zero_of_field(fields@[i as int])] + zero_of_fields(
            fields@.skip(i + 1),
        ));
        assert(models_of(vals@) =~= models_of(before) + zero_of_fields(tail));
    }
}

/// Advances past one element: `elem_size` bytes, or reports that the input
/// is too short.
fn skip_elem(e: &ElemType, s: &[u8], off: usize) -> (res: Result<usize, CodecError>)
    requires
        off <= s@.len(),
    ensures
        res matches Ok(end) ==> end == off + elem_size(*e) && end <= s@.len(),
        res is Err ==> off + elem_size(*e) > s@.len(),
        res matches Err(er) ==> er == CodecError::UnexpectedEnd,
    decreases e, 0int,
{
    let n = s.len();
    match e {
        ElemType::Prim(p, _) => {
            let w = prim_width(*p);
            if n - off >= w {
                Ok(off + w)
            } else {
                Err(CodecError::UnexpectedEnd)
            }
        },
        ElemType::Record(r) => {
            let res = skip_fields_from(&r.fields, s, off, 0);
            proof {
                assert(r.fields@.skip(0) =~= r.fields@);
            }
            res
        },
    }
}

/// Advances past one field: `field_size` bytes, or reports that the input
/// is too short.
fn skip_field(f: &FieldSpec, s: &[u8], off: usize) -> (res: Result<usize, CodecError>)
    requires
        off <= s@.len(),
    ensures
        res matches Ok(end) ==> end == off + field_size(*f) && end <= s@.len(),
        res is Err ==> off + field_size(*f) > s@.len(),
        res matches Err(er) ==> er == CodecError::UnexpectedEnd,
    decreases f, 2int,
{
    let n = s.len();
    if let Some(Padding::Explicit(cnt)) = f.pad {
        if n - off >= cnt {
            return Ok(off + cnt);
        } else {
            return Err(CodecError::UnexpectedEnd);
        }
    }
    let count = match f.shape {
        Shape::Scalar => 1,
        Shape::FixedArray(l) => array_len(l),
    };
    let ghost es = elem_size(f.elem);
    let mut cur = off;
    let mut k: usize = 0;
    while k < count
        invariant
            k <= count,
            es == elem_size(f.elem),
            count == shape_count(f.shape),
            field_size(*f) == es * shape_count(f.shape),
            cur == off + k * es,
            cur <= s@.len(),
            off <= s@.len(),
        decreases count - k,
    {
        match skip_elem(&f.elem, s, cur) {
            Ok(end) => {
                cur = end;
                k = k + 1;
                proof {
                    assert((k - 1) * es + es == k * es) by (nonlinear_arith);
                }
            },
            Err(er) => {
                proof {
                    vstd::arithmetic::mul::lemma_mul_inequality(k + 1, count as int, es as int);
                    assert((k + 1) * (es as int) <= (count as int) * (es as int));
                    assert(k * es + es == (k + 1) * es) by (nonlinear_arith);
                    assert(off + k * es + es > s@.len());
                    assert(es * (count as int) == (count as int) * (es as int))
                        by (nonlinear_arith);
                    assert(off + es * count > s@.len());
                }
                return Err(er);
            },
        }
    }
    proof {
        assert(es * (count as int) == (count as int) * (es as int)) by (nonlinear_arith);
    }
    Ok(cur)
}

/// Advances past the fields `fields[i..]`, or reports that the input is too
/// short.
fn skip_fields_from(fields: &Vec<FieldSpec>, s: &[u8], off: usize, i: usize) -> (res: Result<
    usize,
    CodecError,
>)
    requires
        off <= s@.len(),
        i <= fields@.len(),
    ensures
        res matches Ok(end) ==> end == off + fields_size(fields@.skip(i as int)) && end
            <= s@.len(),
        res is Err ==> off + fields_size(fields@.skip(i as int)) > s@.len(),
        res matches Err(er) ==> er == CodecError::UnexpectedEnd,
    decreases fields, fields@.len() - i,
{
    if i == fields.len() {
        return Ok(off);
    }
    proof {
        let tail = fields@.skip(i as int);
        assert(tail[0] == fields@[i as int]);
        assert(tail.drop_first() =~= fields@.skip(i + 1));
    }
    match skip_field(&fields[i], s, off) {
        Ok(end) => skip_fields_from(fields, s, end, i + 1),
        Err(er) => Err(er),
    }
}

/// `decode_elems` reads only the first `k * elem_size` bytes of its
/// window: two windows that agree there decode alike.
proof fn lemma_decode_elems_prefix(
    e: ElemType,
    native_le: bool,
    k: nat,
    s1: Seq<u8>,
    s2: Seq<u8>,
)
    requires
        k * elem_size(e) <= s1.len(),
        k * elem_size(e) <= s2.len(),
        s1.take((k * elem_size(e)) as int) == s2.take((k * elem_size(e)) as int),
    ensures
        decode_elems(e, native_le, k, s1) == decode_elems(e, native_le, k, s2),
    decreases k,
{
    if k > 0 {
        let es = elem_size(e) as int;
        vstd::arithmetic::mul::lemma_mul_inequality(1, k as int, es);
        assert(1 * es == es) by (nonlinear_arith);
        assert((k - 1) * es + es == k * es) by (nonlinear_arith);
        let kes = (k * elem_size(e)) as int;
        assert forall|j: int| 0 <= j < kes implies s1[j] == s2[j] by {
            assert(s1.take(kes)[j] == s2.take(kes)[j]);
        }
        assert(s1.take(es) =~= s2.take(es));
        assert(s1.skip(es).take((k - 1) * es) =~= s2.skip(es).take((k - 1) * es));
        lemma_decode_elems_prefix(e, native_le, (k - 1) as nat, s1.skip(es), s2.skip(es));
    }
}

/// Reads one element value at `off`.
fn read_elem(e: &ElemType, s: &[u8], off: usize, native_le: bool) -> (res: Result<
    (Value, usize),
    CodecError,
>)
    requires
        off <= s@.len(),
    ensures
        res matches Ok(p) ==> ({
            &&& p.1 == off + elem_size(*e)
            &&& p.1 <= s@.len()
            &&& p.0.model() == decode_elem(*e, native_le, s@.subrange(off as int, off + elem_size(*e)))
            &&& elem_matches(*e, p.0.model())
        }),
        res is Err ==> off + elem_size(*e) > s@.len(),
        res matches Err(er) ==> er == CodecError::UnexpectedEnd,
    decreases e, 0int,
{
    match e {
        ElemType::Prim(p, o) => {
            let n = s.len();
            let w = prim_width(*p);
            if n - off >= w {
                let val = if order_le(*o, native_le) {
                    decode_uint_le(s, off, w)
                } else {
                    decode_uint_be(s, off, w)
                };
                proof {
                    let win = s@.subrange(off as int, off + w);
                    crate::bytes::lemma_pow256_values();
                    lemma_pow256_mono(w as nat, 8);
                    if order_is_le(*o, native_le) {
                        lemma_le_value_of_bound(win);
                    } else {
                        lemma_be_value_of_bound(win);
                    }
                }
                Ok((Value::Uint(val), off + w))
            } else {
                Err(CodecError::UnexpectedEnd)
            }
        },
        ElemType::Record(r) => match read_record_at(r, s, off, native_le) {
            Ok(p) => Ok(p),
            Err(er) => Err(er),
        },
    }
}

/// Reads one field's value at `off`. A padding field consumes its computed
/// filler width and yields the zero value of its type, whatever the bytes
/// hold.
fn read_field(f: &FieldSpec, s: &[u8], off: usize, native_le: bool) -> (res: Result<
    (Value, usize),
    CodecError,
>)
    requires
        off <= s@.len(),
    ensures
        res matches Ok(p) ==> ({
            &&& p.1 == off + field_size(*f)
            &&& p.1 <= s@.len()
            &&& p.0.model() == decode_field(
                *f,
                native_le,
                s@.subrange(off as int, off + field_size(*f)),
            )
            &&& field_matches(*f, p.0.model())
        }),
        res is Err ==> off + field_size(*f) > s@.len(),
        res matches Err(er) ==> er == CodecError::UnexpectedEnd,
    decreases f, 3int,
{
    if f.pad.is_some() {
        match skip_field(f, s, off) {
            Ok(end) => {
                let v = zero_value_field(f);
                return Ok((v, end));
            },
            Err(er) => {
                return Err(er);
            },
        }
    }
    match f.shape {
        Shape::Scalar => match read_elem(&f.elem, s, off, native_le) {
            Ok(p) => {
                proof {
                    assert(field_size(*f) == elem_size(f.elem) * 1);
                    assert(elem_size(f.elem) * 1 == elem_size(f.elem)) by (nonlinear_arith);
                }
                Ok(p)
            },
            Err(er) => Err(er),
        },
        Shape::FixedArray(l) => {
            let ghost es = elem_size(f.elem);
            let n_arr = array_len(l);
            proof {
                assert(field_size(*f) == es * len_of(l));
            }
            let ghost slen = s@.len() as int;
            let mut vals: Vec<Value> = Vec::new();
            let mut cur = off;
            let mut k: usize = 0;
            while k < n_arr
                invariant
                    k <= n_arr,
                    n_arr == len_of(l),
                    es == elem_size(f.elem),
                    f.pad is None,
                    f.shape == Shape::FixedArray(l),
                    field_size(*f) == es * (n_arr as nat),
                    slen == s@.len(),
                    cur == off + k * es,
                    cur <= s@.len(),
                    off <= s@.len(),
                    vals@.len() == k,
                    forall|j: int|
                        0 <= j < k ==> elem_matches(f.elem, #[trigger] models_of(vals@)[j]),
                    models_of(vals@) + decode_elems(
                        f.elem,
                        native_le,
                        (n_arr - k) as nat,
                        s@.subrange(cur as int, slen),
                    ) =~= decode_elems(
                        f.elem,
                        native_le,
                        n_arr as nat,
                        s@.subrange(off as int, slen),
                    ),
                decreases n_arr - k,
            {
                proof {
                    vstd::arithmetic::mul::lemma_mul_inequality(
                        k + 1,
                        n_arr as int,
                        es as int,
                    );
                    assert(k * es + es == (k + 1) * es) by (nonlinear_arith);
                }
                match read_elem(&f.elem, s, cur, native_le) {
                    Ok((v, end)) => {
                        let ghost before = vals@;
                        vals.push(v);
                        proof {
                            lemma_models_of_push(before, v);
                            lemma_models_of_index(before);
                            lemma_models_of_index(vals@);
                            let tail = s@.subrange(cur as int, slen);
                            assert(tail.take(es as int) =~= s@.subrange(
                                cur as int,
                                cur + es,
                            ));
                            assert(tail.skip(es as int) =~= s@.subrange(cur + es, slen));
                            assert(decode_elems(
                                f.elem,
                                native_le,
                                (n_arr - k) as nat,
                                tail,
                            ) == seq![
                                decode_elem(f.elem, native_le, tail.take(es as int)),
                            ] + decode_elems(
                                f.elem,
                                native_le,
                                (n_arr - k - 1) as nat,
                                tail.skip(es as int),
                            ));
                            assert(models_of(vals@) =~= models_of(before).push(v.model()));
                        }
                        cur = end;
                        k = k + 1;
                        proof {
                            assert(models_of(vals@) + decode_elems(
                                f.elem,
                                native_le,
                                (n_arr - k) as nat,
                                s@.subrange(cur as int, slen),
                            ) =~= decode_elems(
                                f.elem,
                                native_le,
                                n_arr as nat,
                                s@.subrange(off as int, slen),
                            ));
                        }
                    },
                    Err(er) => {
                        proof {
                            assert(es * (n_arr as int) == (n_arr as int) * (es as int))
                                by (nonlinear_arith);
                        }
                        return Err(er);
                    },
                }
            }
            proof {
                lemma_models_of_index(vals@);
                assert(models_of(vals@) + Seq::<ValueModel>::empty() =~= models_of(vals@));
                assert(models_of(vals@) =~= decode_elems(
                    f.elem,
                    native_le,
                    n_arr as nat,
                    s@.subrange(off as int, slen),
                ));
                assert(es * (n_arr as int) == (n_arr as int) * (es as int)) by (nonlinear_arith);
                let exact = s@.subrange(off as int, off + field_size(*f));
                let full = s@.subrange(off as int, slen);
                assert(full.take(((n_arr as nat) * es) as int) =~= exact.take(
                    ((n_arr as nat) * es) as int,
                ));
                lemma_decode_elems_prefix(f.elem, native_le, n_arr as nat, full, exact);
            }
            let v = Value::Array(vals);
            proof {
                assert(v.model() == ValueModel::Array(models_of(vals@)));
            }
            Ok((v, cur))
        },
    }
}

/// Reads the fields `fields[i..]` at `off`, appending their values in
/// declared order; the first failure is returned at once.
fn read_fields_from(
    fields: &Vec<FieldSpec>,
    s: &[u8],
    off: usize,
    native_le: bool,
    i: usize,
    vals: &mut Vec<Value>,
) -> (res: Result<usize, CodecError>)
    requires
        off <= s@.len(),
        i <= fields@.len(),
    ensures
        res matches Ok(end) ==> ({
            let tail = fields@.skip(i as int);
            let dvs = decode_fields(
                tail,
                native_le,
                s@.subrange(off as int, off + fields_size(tail)),
            );
            &&& end == off + fields_size(tail)
            &&& end <= s@.len()
            &&& models_of(final(vals)@) == models_of(old(vals)@) + dvs
            &&& fields_match(tail, dvs)
        }),
        res is Err ==> off + fields_size(fields@.skip(i as int)) > s@.len(),
        res matches Err(er) ==> er == CodecError::UnexpectedEnd,
    decreases fields, fields@.len() - i,
{
    let ghost tail = fields@.skip(i as int);
    if i == fields.len() {
        proof {
            assert(models_of(vals@) =~= models_of(vals@) + Seq::<ValueModel>::empty());
        }
        return Ok(off);
    }
    proof {
        assert(tail[0] == fields@[i as int]);
        assert(tail.drop_first() =~= fields@.skip(i + 1));
    }
    match read_field(&fields[i], s, off, native_le) {
        Ok((v, end0)) => {
            let ghost before = vals@;
            vals.push(v);
            proof {
                lemma_models_of_push(before, v);
            }
            match read_fields_from(fields, s, end0, native_le, i + 1, vals) {
                Ok(end) => {
                    proof {
                        let fsz = field_size(fields@[i as int]) as int;
                        let rest = fields@.skip(i + 1);
                        let win = s@.subrange(off as int, off + fields_size(tail));
                        assert(win.take(fsz) =~= s@.subrange(off as int, off + fsz));
                        assert(win.skip(fsz) =~= s@.subrange(
                            off + fsz,
                            off + fsz + fields_size(rest),
                        ));
                        let rdvs = decode_fields(rest, native_le, win.skip(fsz));
                        let dvs = decode_fields(tail, native_le, win);
                        assert(dvs == seq![
                            decode_field(fields@[i as int], native_le, win.take(fsz)),
                        ] + rdvs);
                        assert(dvs[0] == decode_field(fields@[i as int], native_le, win.take(fsz)));
                        assert(dvs[0] == v.model());
                        assert(models_of(vals@) =~= models_of(before) + dvs);
                        assert(dvs.drop_first() =~= rdvs);
                        assert(fields_match(rest, rdvs));
                        assert(rest.len() == rdvs.len());
                        assert(field_matches(tail[0], dvs[0]));
                        assert(fields_match(tail, dvs));
                    }
                    Ok(end)
                },
                Err(er) => Err(er),
            }
        },
        Err(er) => Err(er),
    }
}

/// Reads one record value at `off`: each field in declared order, with the
/// first failure propagated at once and no partial record returned.
pub fn read_record_at(r: &RecordSpec, s: &[u8], off: usize, native_le: bool) -> (res: Result<
    (Value, usize),
    CodecError,
>)
    requires
        off <= s@.len(),
    ensures
        res matches Ok(p) ==> ({
            &&& p.1 == off + record_size(*r)
            &&& p.1 <= s@.len()
            &&& p.0.model() == decode_record(
                *r,
                native_le,
                s@.subrange(off as int, off + record_size(*r)),
            )
            &&& record_matches(*r, p.0.model())
        }),
        res is Err ==> off + record_size(*r) > s@.len(),
        res matches Err(er) ==> er == CodecError::UnexpectedEnd,
    decreases r, 4int,
{
    let mut vals: Vec<Value> = Vec::new();
    match read_fields_from(&r.fields, s, off, native_le, 0, &mut vals) {
        Ok(end) => {
            proof {
                assert(r.fields@.skip(0) =~= r.fields@);
                assert(models_of(vals@) =~= decode_fields(
                    r.fields@,
                    native_le,
                    s@.subrange(off as int, off + record_size(*r)),
                ));
            }
            let v = Value::Record(vals);
            proof {
                assert(v.model() == ValueModel::Record(models_of(vals@)));
            }
            Ok((v, end))
        },
        Err(er) => {
            proof {
                assert(r.fields@.skip(0) =~= r.fields@);
            }
            Err(er)
        },
    }
}

/// Reads one record value from the front of `s`: bytes beyond the record's
/// width are left untouched. Reading fails exactly when `s` holds fewer
/// bytes than the record's width.
pub fn read_record(r: &RecordSpec, s: &[u8], native_le: bool) -> (res: Result<Value, CodecError>)
    ensures
        res matches Ok(v) ==> ({
            &&& record_size(*r) <= s@.len()
            &&& v.model() == decode_record(*r, native_le, s@.take(record_size(*r) as int))
            &&& record_matches(*r, v.model())
        }),
        res is Err ==> record_size(*r) > s@.len(),
        res matches Err(er) ==> er == CodecError::UnexpectedEnd,
{
    match read_record_at(r, s, 0, native_le) {
        Ok((v, _end)) => {
            proof {
                assert(s@.subrange(0, record_size(*r) as int) =~= s@.take(
                    record_size(*r) as int,
                ));
            }
            Ok(v)
        },
        Err(er) => Err(er),
    }
}

/// Whether `v` is a value of the record `r`: the entry point `write_record`
/// uses to tell a fitting value from a mismatched one.
pub fn record_value_matches(r: &RecordSpec, v: &Value) -> (b: bool)
    ensures
        b == record_matches(*r, v.model()),
    decreases r, 2int,
{
    match v {
        Value::Record(vs) => {
            let b = fields_match_from(&r.fields, vs, 0);
            proof {
                assert(r.fields@.skip(0) =~= r.fields@);
                assert(models_of(vs@).skip(0) =~= models_of(vs@));
            }
            b
        },
        _ => false,
    }
}

} // verus!
