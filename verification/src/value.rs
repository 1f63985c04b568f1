//! The primitive value model: tagged values stored under keys, the stored
//! record with its optional expiry instant, and the request-side record with
//! its optional lifetime.

use vstd::prelude::*;
use vstd::utf8::encode_utf8;

verus! {

broadcast use vstd::std_specs::vec::group_vec_axioms;

/// The mathematical model of a primitive value, used by every contract.
#[verifier::ext_equal]
pub enum ValueModel {
    Str(Seq<char>),
    Int(i64),
    Uint(u64),
    Float(u64),
    Boolean(bool),
    Array(Seq<ValueModel>),
}

/// A primitive value carried by requests, responses and the store.
///
/// A floating-point member is carried as its IEEE-754 binary64 bit pattern:
/// the store and the codecs move the bits through unchanged and never do
/// arithmetic on them.
#[derive(Debug, PartialEq)]
pub enum PrimitiveValue {
    Str(String),
    Int(i64),
    Uint(u64),
    Float(u64),
    Boolean(bool),
    Array(Vec<PrimitiveValue>),
}

/// The model of a primitive value: each string becomes its character
/// sequence, each array the sequence of its members' models.
pub open spec fn vmodel(v: PrimitiveValue) -> ValueModel
    decreases v,
    via vmodel_decreases
{
    match v {
        PrimitiveValue::Str(s) => ValueModel::Str(s@),
        PrimitiveValue::Int(n) => ValueModel::Int(n),
        PrimitiveValue::Uint(n) => ValueModel::Uint(n),
        PrimitiveValue::Float(b) => ValueModel::Float(b),
        PrimitiveValue::Boolean(b) => ValueModel::Boolean(b),
        PrimitiveValue::Array(xs) => ValueModel::Array(vmodels(xs@)),
    }
}

/// The models of a sequence of primitive values, member by member.
pub open spec fn vmodels(xs: Seq<PrimitiveValue>) -> Seq<ValueModel>
    decreases xs,
{
    if xs.len() == 0 {
        Seq::empty()
    } else {
        seq![vmodel(xs[0])] + vmodels(xs.subrange(1, xs.len() as int))
    }
}

#[via_fn]
proof fn vmodel_decreases(v: PrimitiveValue) {
    if v is Array {
        assert(decreases_to!(v => v->Array_0));
        assert(decreases_to!(v->Array_0 => v->Array_0@));
    }
}

/// `vmodels` maps member by member: it keeps the length and models each
/// member in place.
pub broadcast proof fn vmodels_props(xs: Seq<PrimitiveValue>)
    ensures
        #[trigger] vmodels(xs).len() == xs.len(),
        forall|i: int| 0 <= i < xs.len() ==> vmodels(xs)[i] == vmodel(xs[i]),
    decreases xs,
{
    if xs.len() > 0 {
        vmodels_props(xs.subrange(1, xs.len() as int));
    }
}

impl View for PrimitiveValue {
    type V = ValueModel;

    open spec fn view(&self) -> ValueModel {
        vmodel(*self)
    }
}

impl Clone for PrimitiveValue {
    /// A clone has the same model as the original.
    fn clone(&self) -> (res: Self)
        ensures
            res@ == self@,
        decreases *self,
    {
        match self {
            PrimitiveValue::Str(s) => PrimitiveValue::Str(s.clone()),
            PrimitiveValue::Int(n) => PrimitiveValue::Int(*n),
            PrimitiveValue::Uint(n) => PrimitiveValue::Uint(*n),
            PrimitiveValue::Float(b) => PrimitiveValue::Float(*b),
            PrimitiveValue::Boolean(b) => PrimitiveValue::Boolean(*b),
            PrimitiveValue::Array(xs) => {
                proof {
                    assert(decreases_to!(*self => (*self)->Array_0));
                    assert(decreases_to!((*self)->Array_0 => (*self)->Array_0@));
                }
                let out = clone_values(xs);
                let res = PrimitiveValue::Array(out);
                proof {
                    vmodels_props(out@);
                    vmodels_props(xs@);
                    assert(vmodels(out@) =~= vmodels(xs@));
                }
                res
            },
        }
    }
}

/// Clones every member of a sequence of primitive values.
fn clone_values(xs: &Vec<PrimitiveValue>) -> (out: Vec<PrimitiveValue>)
    ensures
        out@.len() == xs@.len(),
        forall|j: int| 0 <= j < xs@.len() ==> vmodel(#[trigger] out@[j]) == vmodel(xs@[j]),
    decreases xs@,
{
    let mut out: Vec<PrimitiveValue> = Vec::new();
    let mut i: usize = 0;
    while i < xs.len()
        invariant
            i <= xs@.len(),
            out@.len() == i,
            forall|j: int| 0 <= j < i ==> vmodel(#[trigger] out@[j]) == vmodel(xs@[j]),
        decreases xs@.len() - i,
    {
        out.push(xs[i].clone());
        i = i + 1;
    }
    out
}

/// The mathematical model of a stored record.
#[verifier::ext_equal]
pub struct TableValueModel {
    pub value: ValueModel,
    pub expiry: Option<u64>,
}

impl TableValueModel {
    /// Whether the record is observable at wall time `now`: it is live while
    /// it has no expiry or its expiry lies strictly in the future.
    pub open spec fn live_at(self, now: u64) -> bool {
        match self.expiry {
            Option::None => true,
            Option::Some(e) => now < e,
        }
    }
}

/// The stored form of a record: the value and, when present, the absolute
/// expiry instant in whole seconds since the UNIX epoch.
#[derive(Debug, PartialEq)]
pub struct TableValue {
    pub value: PrimitiveValue,
    pub expiry: Option<u64>,
}

impl View for TableValue {
    type V = TableValueModel;

    open spec fn view(&self) -> TableValueModel {
        TableValueModel { value: self.value@, expiry: self.expiry }
    }
}

impl Clone for TableValue {
    /// A clone has the same model as the original.
    fn clone(&self) -> (res: Self)
        ensures
            res@ == self@,
    {
        TableValue { value: self.value.clone(), expiry: self.expiry }
    }
}

/// The request form of a record: the value and, when present, a lifetime in
/// whole seconds. Storing it turns the lifetime into `now + lifetime`.
#[derive(Debug, PartialEq)]
pub struct InsertTableValue {
    pub value: PrimitiveValue,
    pub lifetime: Option<u64>,
}

/// The mathematical model of a request-side record.
#[verifier::ext_equal]
pub struct InsertValueModel {
    pub value: ValueModel,
    pub lifetime: Option<u64>,
}

impl View for InsertTableValue {
    type V = InsertValueModel;

    open spec fn view(&self) -> InsertValueModel {
        InsertValueModel { value: self.value@, lifetime: self.lifetime }
    }
}

impl Clone for InsertTableValue {
    /// A clone has the same model as the original.
    fn clone(&self) -> (res: Self)
        ensures
            res@ == self@,
    {
        InsertTableValue { value: self.value.clone(), lifetime: self.lifetime }
    }
}

impl InsertValueModel {
    /// The stored form of this record when it is inserted at wall time `now`:
    /// a lifetime becomes the absolute instant `now + lifetime`, saturating
    /// at the largest representable instant.
    pub open spec fn stored_at(self, now: u64) -> TableValueModel {
        TableValueModel {
            value: self.value,
            expiry: match self.lifetime {
                Option::None => Option::None,
                Option::Some(l) => Option::Some(
                    if now + l <= u64::MAX { (now + l) as u64 } else { u64::MAX },
                ),
            },
        }
    }
}

impl InsertTableValue {
    /// Turns the request form into the stored form at wall time `now`.
    pub fn stored_at(self, now: u64) -> (r: TableValue)
        ensures
            r@ == self@.stored_at(now),
    {
        let expiry: Option<u64> = match self.lifetime {
            Option::None => Option::None,
            Option::Some(l) => Option::Some(
                if l <= u64::MAX - now { now + l } else { u64::MAX },
            ),
        };
        TableValue { value: self.value, expiry }
    }
}

/// Every string and array a value holds is short enough for a four-byte
/// length field on the wire.
pub open spec fn wf_model(m: ValueModel) -> bool
    decreases m,
{
    match m {
        ValueModel::Str(s) => encode_utf8(s).len() < 0x1_0000_0000,
        ValueModel::Int(_) => true,
        ValueModel::Uint(_) => true,
        ValueModel::Float(_) => true,
        ValueModel::Boolean(_) => true,
        ValueModel::Array(xs) => xs.len() < 0x1_0000_0000 && (forall|i: int|
            0 <= i < xs.len() ==> wf_model(#[trigger] xs[i])),
    }
}

/// A stored record is well formed when its value is.
pub open spec fn wf_table_value(m: TableValueModel) -> bool {
    wf_model(m.value)
}

} // verus!
