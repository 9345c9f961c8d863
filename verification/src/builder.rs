//! Building a [`RecordSpec`] from raw field declarations: the shape
//! resolver and the per-field translation.
//!
//! A raw field carries an optional name, a declared type, and its
//! directives. Building resolves the type into an element type and a
//! scalar-or-array shape, resolves the directives into a byte order and an
//! optional padding directive, and rejects malformed declarations once and
//! for all — run time never sees a configuration error.

use crate::attrs::{spec_resolve_attrs, Attributes, Directive, GenError};
use crate::model::{ArrayLen, ByteOrder, ElemType, FieldSpec, PrimType, RecordSpec, Shape};
use vstd::prelude::*;

verus! {

/// A declared array length, as written: an integer literal, a named
/// constant whose value the declaration site resolved, or something this
/// model cannot classify.
#[derive(Clone, Debug, PartialEq, Eq)]
pub enum RawLen {
    Lit(usize),
    Named(usize),
    Opaque,
}

/// A declared element type: a primitive, or a nested record whose
/// description was built first.
#[derive(Debug, PartialEq, Eq)]
pub enum RawElem {
    Prim(PrimType),
    Record(RecordSpec),
}

/// A declared field type: one element, or a fixed array of elements.
#[derive(Debug, PartialEq, Eq)]
pub enum RawType {
    Scalar(RawElem),
    Array(RawElem, RawLen),
}

/// One raw field declaration.
#[derive(Debug, PartialEq, Eq)]
pub struct RawField {
    pub name: Option<String>,
    pub ty: RawType,
    pub dirs: Vec<Directive>,
}

/// One raw record declaration: an ordered field list.
#[derive(Debug, PartialEq, Eq)]
pub struct RawRecord {
    pub fields: Vec<RawField>,
}

/// The shape a declared type resolves to: a scalar, an array with a
/// literal length, or an array with a named-constant length. An array
/// length that cannot be classified is a generation error.
pub open spec fn spec_resolve_shape(t: RawType) -> Result<Shape, GenError> {
    match t {
        RawType::Scalar(_) => Ok(Shape::Scalar),
        RawType::Array(_, RawLen::Lit(n)) => Ok(Shape::FixedArray(ArrayLen::Lit(n))),
        RawType::Array(_, RawLen::Named(n)) => Ok(Shape::FixedArray(ArrayLen::Sym(n))),
        RawType::Array(_, RawLen::Opaque) => Err(GenError::BadArrayLen),
    }
}

/// The element type a declared type names: itself for a scalar, the
/// array's element otherwise.
pub open spec fn spec_raw_elem(t: RawType) -> RawElem {
    match t {
        RawType::Scalar(e) => e,
        RawType::Array(e, _) => e,
    }
}

/// Resolves a declared type into its repeat shape.
pub fn resolve_shape(t: &RawType) -> (res: Result<Shape, GenError>)
    ensures
        res == spec_resolve_shape(*t),
{
    match t {
        RawType::Scalar(_) => Ok(Shape::Scalar),
        RawType::Array(_, RawLen::Lit(n)) => Ok(Shape::FixedArray(ArrayLen::Lit(*n))),
        RawType::Array(_, RawLen::Named(n)) => Ok(Shape::FixedArray(ArrayLen::Sym(*n))),
        RawType::Array(_, RawLen::Opaque) => Err(GenError::BadArrayLen),
    }
}

/// The field a raw declaration builds to. The shape is resolved first,
/// then the directives; a byte-order directive on a nested-record element
/// is rejected, since only the record's own composite codec can read or
/// write it.
pub open spec fn spec_build_field(rf: RawField) -> Result<FieldSpec, GenError> {
    match rf.name {
        None => Err(GenError::UnnamedField),
        Some(name) => match spec_resolve_shape(rf.ty) {
            Err(e) => Err(e),
            Ok(shape) => match spec_resolve_attrs(
                rf.dirs@,
                Attributes { order: ByteOrder::Normal, padding: None },
            ) {
                Err(e) => Err(e),
                Ok(attrs) => match spec_raw_elem(rf.ty) {
                    RawElem::Prim(p) => Ok(
                        FieldSpec {
                            name,
                            elem: ElemType::Prim(p, attrs.order),
                            shape,
                            pad: attrs.padding,
                        },
                    ),
                    RawElem::Record(r) => {
                        if attrs.order is Normal {
                            Ok(
                                FieldSpec {
                                    name,
                                    elem: ElemType::Record(Box::new(r)),
                                    shape,
                                    pad: attrs.padding,
                                },
                            )
                        } else {
                            Err(GenError::OrderOnComposite)
                        }
                    },
                },
            },
        },
    }
}

/// The fields a raw field list builds to, in order, with the first error
/// winning.
pub open spec fn spec_build_fields(fs: Seq<RawField>) -> Result<Seq<FieldSpec>, GenError>
    decreases fs.len(),
{
    if fs.len() == 0 {
        Ok(Seq::empty())
    } else {
        match spec_build_field(fs[0]) {
            Err(e) => Err(e),
            Ok(f) => match spec_build_fields(fs.drop_first()) {
                Err(e) => Err(e),
                Ok(rest) => Ok(seq![f] + rest),
            },
        }
    }
}

/// What a raw record builds to: unnamed fields are rejected before any
/// field is translated, then the fields are built in declared order.
pub open spec fn spec_build_record(rr: RawRecord) -> Result<Seq<FieldSpec>, GenError> {
    if exists|i: int| 0 <= i < rr.fields@.len() && (#[trigger] rr.fields@[i].name) is None {
        Err(GenError::UnnamedField)
    } else {
        spec_build_fields(rr.fields@)
    }
}

/// Builds one field description from a raw declaration.
pub fn build_field(rf: RawField) -> (res: Result<FieldSpec, GenError>)
    ensures
        res == spec_build_field(rf),
{
    let RawField { name, ty, dirs } = rf;
    let name = match name {
        None => {
            return Err(GenError::UnnamedField);
        },
        Some(n) => n,
    };
    let shape = match resolve_shape(&ty) {
        Err(e) => {
            return Err(e);
        },
        Ok(s) => s,
    };
    let attrs = match Attributes::resolve(&dirs) {
        Err(e) => {
            return Err(e);
        },
        Ok(a) => a,
    };
    let elem = match ty {
        RawType::Scalar(e) => e,
        RawType::Array(e, _) => e,
    };
    match elem {
        RawElem::Prim(p) => Ok(
            FieldSpec { name, elem: ElemType::Prim(p, attrs.order), shape, pad: attrs.padding },
        ),
        RawElem::Record(r) => {
            if let ByteOrder::Normal = attrs.order {
                Ok(
                    FieldSpec {
                        name,
                        elem: ElemType::Record(Box::new(r)),
                        shape,
                        pad: attrs.padding,
                    },
                )
            } else {
                Err(GenError::OrderOnComposite)
            }
        },
    }
}

/// Builds a record description from a raw declaration, consuming it.
pub fn build_record(rr: RawRecord) -> (res: Result<RecordSpec, GenError>)
    ensures
        res matches Ok(r) ==> spec_build_record(rr) == Ok::<Seq<FieldSpec>, GenError>(r.fields@),
        res matches Err(e) ==> spec_build_record(rr) == Err::<Seq<FieldSpec>, GenError>(e),
{
    let RawRecord { mut fields } = rr;
    let ghost orig = fields@;
    let mut i: usize = 0;
    while i < fields.len()
        invariant
            i <= fields@.len(),
            fields@ == orig,
            orig == rr.fields@,
            forall|j: int| 0 <= j < i ==> (#[trigger] orig[j].name) is Some,
        decreases fields@.len() - i,
    {
        if fields[i].name.is_none() {
            return Err(GenError::UnnamedField);
        }
        i = i + 1;
    }
    let mut built: Vec<FieldSpec> = Vec::new();
    while fields.len() > 0
        invariant
            fields@.len() <= orig.len(),
            orig == rr.fields@,
            forall|j: int| 0 <= j < orig.len() ==> (#[trigger] orig[j].name) is Some,
            fields@ == orig.skip(orig.len() - fields@.len()),
            spec_build_fields(fields@) matches Ok(rest) ==> spec_build_fields(orig) == Ok::<
                Seq<FieldSpec>,
                GenError,
            >(built@ + rest),
            spec_build_fields(fields@) is Err ==> spec_build_fields(orig) == spec_build_fields(
                fields@,
            ),
        decreases fields@.len(),
    {
        let ghost fs_before = fields@;
        let ghost built_before = built@;
        let rf = fields.remove(0);
        proof {
            assert(fields@ =~= fs_before.drop_first());
        }
        match build_field(rf) {
            Ok(f) => {
                built.push(f);
                proof {
                    let r2 = spec_build_fields(fields@);
                    if r2 is Ok {
                        let rest = r2->Ok_0;
                        assert(built@ =~= built_before.push(f));
                        assert((built_before + (seq![f] + rest)) =~= (built@ + rest));
                    }
                    assert(fields@ =~= orig.skip(orig.len() - fields@.len()));
                }
            },
            Err(e) => {
                return Err(e);
            },
        }
    }
    proof {
        assert(built@ + Seq::<FieldSpec>::empty() =~= built@);
        assert(!(exists|ix: int|
            0 <= ix < rr.fields@.len() && (#[trigger] rr.fields@[ix].name) is None));
    }
    Ok(RecordSpec { fields: built })
}

} // verus!
