//! Encoding and decoding of CBOR values through the `ciborium` crate.
use vstd::prelude::*;
use crate::value::{CborValue, CborModel, SELF_DESCRIBED_TAG};
use ciborium::Value as Cv;

verus! {

#[verifier::external_type_specification]
#[verifier::external_body]
pub struct ExCiboriumValue(ciborium::Value);

/// The bytes that `ciborium::into_writer` writes for a value.
pub uninterp spec fn cbor_encoding(v: CborModel) -> Seq<u8>;

/// What `ciborium::from_reader` reads from a byte string: the first data item,
/// or `None` where it reports an error.
pub uninterp spec fn cbor_decoding(bytes: Seq<u8>) -> Option<CborModel>;

/// The three bytes that begin every self-described CBOR document (tag 55799).
pub open spec fn is_self_described_prefix(bytes: Seq<u8>) -> bool {
    bytes.len() >= 3 && bytes[0] == 0xD9u8 && bytes[1] == 0xD9u8 && bytes[2] == 0xF7u8
}

/// Converts a value to ciborium's value type, variant for variant (the
/// scalars through `leaf_outside`).
#[verifier::external_body]
pub(crate) fn to_outside(v: &CborValue) -> ciborium::Value
    requires
        v.wf(),
{
    match v {
        CborValue::Tag(t, inner) => Cv::Tag(*t, Box::new(to_outside(inner))),
        CborValue::Array(items) => Cv::Array(items.iter().map(to_outside).collect()),
        CborValue::Mapping(entries) => Cv::Map(entries.iter().map(|(k, x)| (to_outside(k), to_outside(x))).collect()),
        _ => leaf_outside(v),
    }
}

/// Converts a scalar value (no tag, array or map) to ciborium's value type.
#[verifier::external_body]
fn leaf_outside(v: &CborValue) -> ciborium::Value
    requires
        v.wf(),
{
    match v {
        CborValue::Integer(i) => Cv::Integer((*i).try_into().unwrap()),
        CborValue::Bytes(b) => Cv::Bytes(b.clone()),
        // A binary64 float is rebuilt from its own encoding: header 0xFB, then the bits.
        CborValue::Float(bits) => ciborium::from_reader(&[&[0xFBu8][..], &bits.to_be_bytes()[..]].concat()[..]).unwrap(),
        CborValue::Text(s) => Cv::Text(s.clone()),
        CborValue::Bool(b) => Cv::Bool(*b),
        _ => Cv::Null,
    }
}

/// Converts ciborium's value type to a value, variant for variant.
#[verifier::external_body]
fn from_outside(v: ciborium::Value) -> CborValue {
    match v {
        Cv::Integer(i) => CborValue::Integer(i.into()),
        Cv::Bytes(b) => CborValue::Bytes(b),
        Cv::Float(f) => CborValue::Float(f.to_bits()),
        Cv::Text(s) => CborValue::Text(s),
        Cv::Bool(b) => CborValue::Bool(b),
        Cv::Tag(t, inner) => CborValue::Tag(t, Box::new(from_outside(*inner))),
        Cv::Array(items) => CborValue::Array(items.into_iter().map(from_outside).collect()),
        Cv::Map(entries) => CborValue::Mapping(entries.into_iter().map(|(k, x)| (from_outside(k), from_outside(x))).collect()),
        _ => CborValue::Null,
    }
}

/// A value that ciborium reads back as it writes it, nested at most `depth`
/// containers deep: its integers are ones CBOR holds natively, and no tag 2
/// or 3 holds a byte string of at most 16 bytes (ciborium reads those as big
/// integers).
pub open spec fn reads_back_within(m: CborModel, depth: nat) -> bool
    decreases m,
{
    match m {
        CborModel::Integer(i) => crate::value::cbor_int_range(i),
        CborModel::Tag(t, inner) => depth > 0 && !((t == 2 || t == 3) && (match *inner {
            CborModel::Bytes(b) => b.len() <= 16,
            _ => false,
        })) && reads_back_within(*inner, (depth - 1) as nat),
        CborModel::Array(items) => depth > 0 && forall|i: int|
            0 <= i < items.len() ==> reads_back_within(#[trigger] items[i], (depth - 1) as nat),
        CborModel::Mapping(entries) => depth > 0 && forall|i: int|
            0 <= i < entries.len() ==> reads_back_within(#[trigger] entries[i].0, (depth - 1) as nat)
                && reads_back_within(entries[i].1, (depth - 1) as nat),
        _ => true,
    }
}

/// A value that ciborium reads back as it writes it, within half of its
/// default nesting limit (256).
pub open spec fn reads_back(m: CborModel) -> bool {
    reads_back_within(m, 128)
}

/// Serializes a value with `ciborium::into_writer` into a fresh `Vec<u8>`.
/// Claimed: the result is `cbor_encoding` of the value (a writer into a `Vec`
/// cannot fail); a value under the self-described tag 55799 is written with
/// the header bytes D9 D9 F7 first (RFC 8949 §3.4.6); and `from_reader` reads
/// a value that `reads_back` from those bytes as it was (ciborium's `Value`
/// serializer and visitor map each variant onto itself, floats keep their
/// bits, and its reader nests up to 256 containers).
#[verifier::external_body]
pub(crate) fn encode_value(v: &CborValue) -> (bytes: Vec<u8>)
    requires
        v.wf(),
    ensures
        bytes@ == cbor_encoding(v@),
        (v@ is Tag && v@->Tag_0 == SELF_DESCRIBED_TAG) ==> is_self_described_prefix(bytes@),
        reads_back(v@) ==> cbor_decoding(bytes@) == Some(v@),
{
    let mut buf = Vec::new();
    ciborium::into_writer(&to_outside(v), &mut buf).expect("writing into a Vec cannot fail");
    buf
}

/// Reads one data item with `ciborium::from_reader`. Claimed: `Ok` exactly
/// where `cbor_decoding` names a value, and then that value, whose integers
/// are ones that CBOR holds natively (ciborium's `Integer` holds no others);
/// the error's message is carried as text.
#[verifier::external_body]
pub(crate) fn decode_value(bytes: &[u8]) -> (r: Result<CborValue, String>)
    ensures
        r is Ok <==> cbor_decoding(bytes@) is Some,
        r matches Ok(v) ==> cbor_decoding(bytes@) == Some(v@) && v.wf(),
{
    match ciborium::from_reader::<ciborium::Value, &[u8]>(bytes) {
        Ok(v) => Ok(from_outside(v)),
        Err(e) => Err(e.to_string()),
    }
}

} // verus!
