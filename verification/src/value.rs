//! The dynamic CBOR value that CBOR-Web documents are made of, and its
//! mathematical model.
use vstd::prelude::*;

verus! {

/// A dynamic CBOR value (RFC 8949 data model).
///
/// Floats are carried as their IEEE-754 binary64 bit pattern: the library never
/// computes with them, it only carries and compares them.
#[derive(Debug)]
pub enum CborValue {
    Integer(i128),
    Bytes(Vec<u8>),
    Float(u64),
    Text(String),
    Bool(bool),
    Null,
    Tag(u64, Box<CborValue>),
    Array(Vec<CborValue>),
    Mapping(Vec<(CborValue, CborValue)>),
}

/// Mathematical model of a CBOR value.
pub enum CborModel {
    Integer(int),
    Bytes(Seq<u8>),
    Float(u64),
    Text(Seq<char>),
    Bool(bool),
    Null,
    Tag(u64, Box<CborModel>),
    Array(Seq<CborModel>),
    Mapping(Seq<(CborModel, CborModel)>),
}

/// The self-described CBOR tag (RFC 8949 §3.4.6).
pub const SELF_DESCRIBED_TAG: u64 = 55799;

/// The epoch-based date/time tag (RFC 8949 §3.4.2).
pub const EPOCH_TAG: u64 = 1;

pub open spec fn model_of(v: CborValue) -> CborModel
    decreases v,
{
    match v {
        CborValue::Integer(i) => CborModel::Integer(i as int),
        CborValue::Bytes(b) => CborModel::Bytes(b@),
        CborValue::Float(f) => CborModel::Float(f),
        CborValue::Text(s) => CborModel::Text(s@),
        CborValue::Bool(b) => CborModel::Bool(b),
        CborValue::Null => CborModel::Null,
        CborValue::Tag(t, inner) => CborModel::Tag(t, Box::new(model_of(*inner))),
        CborValue::Array(items) => CborModel::Array(models_of(items@)),
        CborValue::Mapping(entries) => CborModel::Mapping(entry_models_of(entries@)),
    }
}

pub open spec fn models_of(s: Seq<CborValue>) -> Seq<CborModel>
    decreases s,
{
    if s.len() == 0 {
        Seq::empty()
    } else {
        models_of(s.drop_last()).push(model_of(s.last()))
    }
}

pub open spec fn entry_models_of(s: Seq<(CborValue, CborValue)>) -> Seq<(CborModel, CborModel)>
    decreases s,
{
    if s.len() == 0 {
        Seq::empty()
    } else {
        entry_models_of(s.drop_last()).push((model_of(s.last().0), model_of(s.last().1)))
    }
}

impl View for CborValue {
    type V = CborModel;

    open spec fn view(&self) -> CborModel {
        model_of(*self)
    }
}

pub broadcast proof fn lemma_models_of(s: Seq<CborValue>)
    ensures
        #[trigger] models_of(s).len() == s.len(),
        forall|i: int| 0 <= i < s.len() ==> #[trigger] models_of(s)[i] == model_of(s[i]),
    decreases s.len(),
{
    if s.len() > 0 {
        lemma_models_of(s.drop_last());
    }
}

pub broadcast proof fn lemma_entry_models_of(s: Seq<(CborValue, CborValue)>)
    ensures
        #[trigger] entry_models_of(s).len() == s.len(),
        forall|i: int|
            0 <= i < s.len() ==> #[trigger] entry_models_of(s)[i] == (
                model_of(s[i].0),
                model_of(s[i].1),
            ),
    decreases s.len(),
{
    if s.len() > 0 {
        lemma_entry_models_of(s.drop_last());
    }
}

pub broadcast group group_models {
    lemma_models_of,
    lemma_entry_models_of,
}

/// The integers that a CBOR data item can hold natively (major types 0 and 1).
pub open spec fn cbor_int_range(i: int) -> bool {
    -0x1_0000_0000_0000_0000 <= i <= 0xffff_ffff_ffff_ffff
}

/// Well-formedness: every integer in the value is one that CBOR holds natively.
pub open spec fn model_wf(m: CborModel) -> bool
    decreases m,
{
    match m {
        CborModel::Integer(i) => cbor_int_range(i),
        CborModel::Tag(_, inner) => model_wf(*inner),
        CborModel::Array(items) => all_wf(items),
        CborModel::Mapping(entries) => all_entries_wf(entries),
        _ => true,
    }
}

pub open spec fn all_wf(s: Seq<CborModel>) -> bool
    decreases s,
{
    if s.len() == 0 {
        true
    } else {
        all_wf(s.drop_last()) && model_wf(s.last())
    }
}

pub open spec fn all_entries_wf(s: Seq<(CborModel, CborModel)>) -> bool
    decreases s,
{
    if s.len() == 0 {
        true
    } else {
        all_entries_wf(s.drop_last()) && model_wf(s.last().0) && model_wf(s.last().1)
    }
}

pub broadcast proof fn lemma_all_wf(s: Seq<CborModel>)
    ensures
        #[trigger] all_wf(s) <==> forall|i: int| 0 <= i < s.len() ==> model_wf(#[trigger] s[i]),
    decreases s.len(),
{
    if s.len() > 0 {
        lemma_all_wf(s.drop_last());
        assert(forall|i: int| 0 <= i < s.len() - 1 ==> s.drop_last()[i] == s[i]);
    }
}

pub broadcast proof fn lemma_all_entries_wf(s: Seq<(CborModel, CborModel)>)
    ensures
        #[trigger] all_entries_wf(s) <==> forall|i: int|
            0 <= i < s.len() ==> model_wf(#[trigger] s[i].0) && model_wf(s[i].1),
    decreases s.len(),
{
    if s.len() > 0 {
        lemma_all_entries_wf(s.drop_last());
        assert(forall|i: int| 0 <= i < s.len() - 1 ==> s.drop_last()[i] == s[i]);
    }
}

impl CborValue {
    pub open spec fn wf(&self) -> bool {
        model_wf(self@)
    }
}

/// True iff the bit pattern is a finite IEEE-754 binary64 value: its exponent
/// bits are not all ones (which mark the infinities and NaN).
pub open spec fn is_finite_bits(x: u64) -> bool {
    (x >> 52u64) & 0x7ffu64 != 0x7ffu64
}

/// True iff the bit pattern is an IEEE-754 binary64 NaN.
pub open spec fn is_nan_bits(x: u64) -> bool {
    (x >> 52u64) & 0x7ffu64 == 0x7ffu64 && x & 0xf_ffff_ffff_ffffu64 != 0
}

/// IEEE-754 equality of two binary64 values given by their bit patterns:
/// NaN equals nothing, and the two zeros are equal.
pub open spec fn float_bits_eq(a: u64, b: u64) -> bool {
    if is_nan_bits(a) || is_nan_bits(b) {
        false
    } else if a & 0x7fff_ffff_ffff_ffffu64 == 0 && b & 0x7fff_ffff_ffff_ffffu64 == 0 {
        true
    } else {
        a == b
    }
}

/// Structural equality of CBOR values, with floats compared as IEEE-754 numbers.
pub open spec fn model_eq(a: CborModel, b: CborModel) -> bool
    decreases a,
{
    match a {
        CborModel::Integer(x) => b is Integer && b->Integer_0 == x,
        CborModel::Bytes(x) => b is Bytes && b->Bytes_0 == x,
        CborModel::Float(x) => b is Float && float_bits_eq(x, b->Float_0),
        CborModel::Text(x) => b is Text && b->Text_0 == x,
        CborModel::Bool(x) => b is Bool && b->Bool_0 == x,
        CborModel::Null => b is Null,
        CborModel::Tag(t, inner) => match b {
            CborModel::Tag(t2, inner2) => t == t2 && model_eq(*inner, *inner2),
            _ => false,
        },
        CborModel::Array(xs) => match b {
            CborModel::Array(ys) => xs.len() == ys.len() && forall|i: int|
                0 <= i < xs.len() ==> model_eq(#[trigger] xs[i], ys[i]),
            _ => false,
        },
        CborModel::Mapping(xs) => match b {
            CborModel::Mapping(ys) => xs.len() == ys.len() && forall|i: int|
                0 <= i < xs.len() ==> model_eq(#[trigger] xs[i].0, ys[i].0) && model_eq(
                    xs[i].1,
                    ys[i].1,
                ),
            _ => false,
        },
    }
}

fn float_bits_equal(a: u64, b: u64) -> (r: bool)
    ensures
        r == float_bits_eq(a, b),
{
    let a_nan = (a >> 52u64) & 0x7ffu64 == 0x7ffu64 && a & 0xf_ffff_ffff_ffffu64 != 0;
    let b_nan = (b >> 52u64) & 0x7ffu64 == 0x7ffu64 && b & 0xf_ffff_ffff_ffffu64 != 0;
    if a_nan || b_nan {
        false
    } else if a & 0x7fff_ffff_ffff_ffffu64 == 0 && b & 0x7fff_ffff_ffff_ffffu64 == 0 {
        true
    } else {
        a == b
    }
}

fn bytes_equal(a: &Vec<u8>, b: &Vec<u8>) -> (r: bool)
    ensures
        r == (a@ == b@),
{
    if a.len() != b.len() {
        return false;
    }
    let mut i: usize = 0;
    while i < a.len()
        invariant
            a.len() == b.len(),
            i <= a.len(),
            forall|j: int| 0 <= j < i ==> a@[j] == b@[j],
        decreases a.len() - i,
    {
        if a[i] != b[i] {
            return false;
        }
        i = i + 1;
    }
    assert(a@ =~= b@);
    true
}

/// Equality of two CBOR values, as the derived equality of the CBOR data model
/// decides it.
#[verifier::loop_isolation(false)]
pub fn values_equal(a: &CborValue, b: &CborValue) -> (r: bool)
    ensures
        r == model_eq(a@, b@),
    decreases a,
{
    broadcast use group_models;

    match a {
        CborValue::Integer(x) => match b {
            CborValue::Integer(y) => *x == *y,
            _ => false,
        },
        CborValue::Bytes(x) => match b {
            CborValue::Bytes(y) => bytes_equal(x, y),
            _ => false,
        },
        CborValue::Float(x) => match b {
            CborValue::Float(y) => float_bits_equal(*x, *y),
            _ => false,
        },
        CborValue::Text(x) => match b {
            CborValue::Text(y) => *x == *y,
            _ => false,
        },
        CborValue::Bool(x) => match b {
            CborValue::Bool(y) => *x == *y,
            _ => false,
        },
        CborValue::Null => match b {
            CborValue::Null => true,
            _ => false,
        },
        CborValue::Tag(t, inner) => match b {
            CborValue::Tag(t2, inner2) => *t == *t2 && values_equal(inner, inner2),
            _ => false,
        },
        CborValue::Array(xs) => match b {
            CborValue::Array(ys) => {
                proof {
                    lemma_models_of(xs@);
                    lemma_models_of(ys@);
                }
                if xs.len() != ys.len() {
                    return false;
                }
                let mut i: usize = 0;
                while i < xs.len()
                    invariant
                        xs.len() == ys.len(),
                        i <= xs.len(),
                        forall|j: int| 0 <= j < i ==> model_eq(#[trigger] model_of(xs@[j]), model_of(ys@[j])),
                    decreases xs.len() - i,
                {
                    proof {
                        assert(decreases_to!(*a => (*a)->Array_0));
                        assert(decreases_to!(*xs => xs@));
                        assert(decreases_to!(xs@ => xs@[i as int]));
                    }
                    if !values_equal(&xs[i], &ys[i]) {
                        assert(models_of(xs@)[i as int] == model_of(xs@[i as int]));
                        return false;
                    }
                    i = i + 1;
                }
                true
            },
            _ => false,
        },
        CborValue::Mapping(xs) => match b {
            CborValue::Mapping(ys) => {
                proof {
                    lemma_entry_models_of(xs@);
                    lemma_entry_models_of(ys@);
                }
                if xs.len() != ys.len() {
                    return false;
                }
                let mut i: usize = 0;
                while i < xs.len()
                    invariant
                        xs.len() == ys.len(),
                        i <= xs.len(),
                        forall|j: int|
                            0 <= j < i ==> model_eq(#[trigger] model_of(xs@[j].0), model_of(ys@[j].0))
                                && model_eq(model_of(xs@[j].1), model_of(ys@[j].1)),
                    decreases xs.len() - i,
                {
                    proof {
                        assert(decreases_to!(*a => (*a)->Mapping_0));
                        assert(decreases_to!(*xs => xs@));
                        assert(decreases_to!(xs@ => xs@[i as int]));
                        assert(decreases_to!(xs@[i as int] => xs@[i as int].0));
                        assert(decreases_to!(xs@[i as int] => xs@[i as int].1));
                    }
                    if !values_equal(&xs[i].0, &ys[i].0) {
                        assert(entry_models_of(xs@)[i as int].0 == model_of(xs@[i as int].0));
                        return false;
                    }
                    if !values_equal(&xs[i].1, &ys[i].1) {
                        assert(entry_models_of(xs@)[i as int].1 == model_of(xs@[i as int].1));
                        return false;
                    }
                    i = i + 1;
                }
                true
            },
            _ => false,
        },
    }
}

// ── Constructors ──

/// A text value.
pub fn t(s: &str) -> (r: CborValue)
    ensures
        r@ == CborModel::Text(s@),
        r.wf(),
{
    CborValue::Text(s.to_owned())
}

/// An unsigned integer value.
pub fn u(n: u64) -> (r: CborValue)
    ensures
        r@ == CborModel::Integer(n as int),
        r.wf(),
{
    CborValue::Integer(n as i128)
}

/// A signed integer value.
pub fn ii(n: i64) -> (r: CborValue)
    ensures
        r@ == CborModel::Integer(n as int),
        r.wf(),
{
    CborValue::Integer(n as i128)
}

/// A boolean value.
pub fn b(v: bool) -> (r: CborValue)
    ensures
        r@ == CborModel::Bool(v),
        r.wf(),
{
    CborValue::Bool(v)
}

/// An epoch date/time: tag 1 around the number of seconds.
pub fn epoch(ts: u64) -> (r: CborValue)
    ensures
        r@ == CborModel::Tag(EPOCH_TAG, Box::new(CborModel::Integer(ts as int))),
        r.wf(),
{
    CborValue::Tag(EPOCH_TAG, Box::new(u(ts)))
}

/// Wraps a value in the self-described CBOR tag 55799.
pub fn self_described(inner: CborValue) -> (r: CborValue)
    ensures
        r@ == CborModel::Tag(SELF_DESCRIBED_TAG, Box::new(inner@)),
        r.wf() == inner.wf(),
{
    CborValue::Tag(SELF_DESCRIBED_TAG, Box::new(inner))
}

/// An array value.
pub fn arr(items: Vec<CborValue>) -> (r: CborValue)
    ensures
        r@ == CborModel::Array(models_of(items@)),
        r.wf() <==> forall|i: int| 0 <= i < items.len() ==> (#[trigger] items@[i]).wf(),
{
    proof {
        lemma_models_of(items@);
        assert(forall|i: int| 0 <= i < items.len() ==> models_of(items@)[i] == #[trigger] model_of(items@[i]));
    }
    let r = CborValue::Array(items);
    proof {
        lemma_all_wf(models_of(items@));
    }
    r
}

} // verus!

verus! {

/// A copy of a byte string.
pub fn clone_bytes(b: &Vec<u8>) -> (r: Vec<u8>)
    ensures
        r@ == b@,
{
    let mut r: Vec<u8> = Vec::new();
    let mut i: usize = 0;
    while i < b.len()
        invariant
            i <= b.len(),
            r@ == b@.take(i as int),
        decreases b.len() - i,
    {
        r.push(b[i]);
        i = i + 1;
        assert(r@ =~= b@.take(i as int));
    }
    assert(b@.take(b.len() as int) =~= b@);
    r
}

/// A deep copy of a value.
#[verifier::loop_isolation(false)]
pub fn clone_value(v: &CborValue) -> (r: CborValue)
    ensures
        r@ == v@,
    decreases v,
{
    match v {
        CborValue::Integer(i) => CborValue::Integer(*i),
        CborValue::Bytes(x) => CborValue::Bytes(clone_bytes(x)),
        CborValue::Float(f) => CborValue::Float(*f),
        CborValue::Text(s) => CborValue::Text(s.clone()),
        CborValue::Bool(x) => CborValue::Bool(*x),
        CborValue::Null => CborValue::Null,
        CborValue::Tag(t, inner) => CborValue::Tag(*t, Box::new(clone_value(inner))),
        CborValue::Array(xs) => {
            let mut out: Vec<CborValue> = Vec::new();
            let mut i: usize = 0;
            while i < xs.len()
                invariant
                    i <= xs.len(),
                    out.len() == i,
                    forall|j: int| 0 <= j < i ==> model_of(#[trigger] out@[j]) == model_of(xs@[j]),
                decreases xs.len() - i,
            {
                proof {
                    assert(decreases_to!(*v => (*v)->Array_0));
                    assert(decreases_to!(*xs => xs@));
                    assert(decreases_to!(xs@ => xs@[i as int]));
                }
                let c = clone_value(&xs[i]);
                out.push(c);
                i = i + 1;
            }
            proof {
                lemma_models_of(out@);
                lemma_models_of(xs@);
                assert(models_of(out@) =~= models_of(xs@));
            }
            CborValue::Array(out)
        },
        CborValue::Mapping(xs) => {
            let mut out: Vec<(CborValue, CborValue)> = Vec::new();
            let mut i: usize = 0;
            while i < xs.len()
                invariant
                    i <= xs.len(),
                    out.len() == i,
                    forall|j: int|
                        0 <= j < i ==> model_of(#[trigger] out@[j].0) == model_of(xs@[j].0)
                            && model_of(out@[j].1) == model_of(xs@[j].1),
                decreases xs.len() - i,
            {
                proof {
                    assert(decreases_to!(*v => (*v)->Mapping_0));
                    assert(decreases_to!(*xs => xs@));
                    assert(decreases_to!(xs@ => xs@[i as int]));
                    assert(decreases_to!(xs@[i as int] => xs@[i as int].0));
                    assert(decreases_to!(xs@[i as int] => xs@[i as int].1));
                }
                let k = clone_value(&xs[i].0);
                let x = clone_value(&xs[i].1);
                out.push((k, x));
                i = i + 1;
            }
            proof {
                lemma_entry_models_of(out@);
                lemma_entry_models_of(xs@);
                assert(entry_models_of(out@) =~= entry_models_of(xs@));
            }
            CborValue::Mapping(out)
        },
    }
}

} // verus!
