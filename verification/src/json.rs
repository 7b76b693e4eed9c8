//! JSON values, and the conversion of CBOR-Web content into them.
use vstd::prelude::*;
use crate::value::{CborValue, CborModel, model_wf, is_finite_bits, models_of, entry_models_of, lemma_models_of, lemma_entry_models_of, lemma_all_wf, lemma_all_entries_wf, EPOCH_TAG};
use crate::text::{i128_decimal, signed_decimal};
use crate::digest::{hex_encode, hex_text};

verus! {

/// A JSON value. Numbers are integers, or floats carried as their binary64
/// bit pattern; an object is a list of members in which a later member
/// replaces an earlier one of the same name.
#[derive(Debug)]
pub enum JsonValue {
    Null,
    Bool(bool),
    Int(i128),
    Float(u64),
    Str(String),
    Array(Vec<JsonValue>),
    Object(Vec<(String, JsonValue)>),
}

/// Mathematical model of a JSON value: an object is a finite map from names.
pub enum JsonModel {
    Null,
    Bool(bool),
    Int(int),
    Float(u64),
    Str(Seq<char>),
    Array(Seq<JsonModel>),
    Object(Map<Seq<char>, JsonModel>),
}

pub open spec fn json_model(v: JsonValue) -> JsonModel
    decreases v,
{
    match v {
        JsonValue::Null => JsonModel::Null,
        JsonValue::Bool(b) => JsonModel::Bool(b),
        JsonValue::Int(i) => JsonModel::Int(i as int),
        JsonValue::Float(f) => JsonModel::Float(f),
        JsonValue::Str(s) => JsonModel::Str(s@),
        JsonValue::Array(items) => JsonModel::Array(json_models(items@)),
        JsonValue::Object(members) => JsonModel::Object(object_model(members@)),
    }
}

pub open spec fn json_models(s: Seq<JsonValue>) -> Seq<JsonModel>
    decreases s,
{
    if s.len() == 0 {
        Seq::empty()
    } else {
        json_models(s.drop_last()).push(json_model(s.last()))
    }
}

/// The members of an object, later ones replacing earlier ones.
pub open spec fn object_model(s: Seq<(String, JsonValue)>) -> Map<Seq<char>, JsonModel>
    decreases s,
{
    if s.len() == 0 {
        Map::empty()
    } else {
        object_model(s.drop_last()).insert(s.last().0@, json_model(s.last().1))
    }
}

impl View for JsonValue {
    type V = JsonModel;

    open spec fn view(&self) -> JsonModel {
        json_model(*self)
    }
}

pub broadcast proof fn lemma_json_models(s: Seq<JsonValue>)
    ensures
        #[trigger] json_models(s).len() == s.len(),
        forall|i: int| 0 <= i < s.len() ==> #[trigger] json_models(s)[i] == json_model(s[i]),
    decreases s.len(),
{
    if s.len() > 0 {
        lemma_json_models(s.drop_last());
    }
}

/// Pushing a member onto an object inserts it into the object's map.
pub proof fn lemma_object_push(s: Seq<(String, JsonValue)>, k: String, v: JsonValue)
    ensures
        object_model(s.push((k, v))) == object_model(s).insert(k@, json_model(v)),
{
    assert(s.push((k, v)).drop_last() =~= s);
}

/// A string value.
pub fn jstr(s: &str) -> (r: JsonValue)
    ensures
        r@ == JsonModel::Str(s@),
{
    JsonValue::Str(s.to_owned())
}

/// Adds a member to an object under construction.
pub fn obj_insert(members: &mut Vec<(String, JsonValue)>, name: &str, v: JsonValue)
    ensures
        object_model(final(members)@) == object_model(old(members)@).insert(name@, v@),
{
    let k = name.to_owned();
    proof {
        lemma_object_push(members@, k, v);
    }
    members.push((k, v));
}

/// An array of strings.
pub fn str_array(items: &Vec<String>) -> (r: JsonValue)
    ensures
        r@ == JsonModel::Array(items@.map_values(|s: String| JsonModel::Str(s@))),
{
    let mut out: Vec<JsonValue> = Vec::new();
    let mut i: usize = 0;
    while i < items.len()
        invariant
            i <= items.len(),
            out.len() == i,
            forall|j: int| 0 <= j < i ==> json_model(#[trigger] out@[j]) == JsonModel::Str(items@[j]@),
        decreases items.len() - i,
    {
        out.push(JsonValue::Str(items[i].clone()));
        i = i + 1;
    }
    proof {
        lemma_json_models(out@);
        assert(json_models(out@) =~= items@.map_values(|s: String| JsonModel::Str(s@)));
    }
    JsonValue::Array(out)
}

// ── CBOR to JSON ──

/// The text `{:?}` gives for a value of `ciborium::Value` (derived `Debug`).
pub uninterp spec fn cbor_debug_text(v: CborModel) -> Seq<char>;

/// `format!("{:?}", v)` of the value converted to `ciborium::Value`. Claimed:
/// the result is `cbor_debug_text` of the value, a function of the value alone.
#[verifier::external_body]
fn debug_text(v: &CborValue) -> (r: String)
    requires
        v.wf(),
    ensures
        r@ == cbor_debug_text(v@),
{
    format!("{:?}", crate::codec::to_outside(v))
}

/// The JSON member name for a CBOR map key: a text as it is, an integer in
/// decimal, any other key as its debug text.
pub open spec fn json_key(k: CborModel) -> Seq<char> {
    match k {
        CborModel::Text(s) => s,
        CborModel::Integer(n) => signed_decimal(n),
        _ => cbor_debug_text(k),
    }
}

/// The JSON form of a CBOR value: integers, text, booleans and null as
/// themselves, finite floats as themselves and the others (NaN, infinities)
/// as null, bytes as lowercase hexadecimal, arrays item by item, maps by
/// `json_key` (a later entry replacing an earlier one of the same name), an
/// epoch tag (1) as its content and any other tag as `{"_tag", "_value"}`.
pub open spec fn cbor_json(v: CborModel) -> JsonModel
    decreases v,
{
    match v {
        CborModel::Integer(n) => JsonModel::Int(n),
        CborModel::Text(s) => JsonModel::Str(s),
        CborModel::Bool(b) => JsonModel::Bool(b),
        CborModel::Null => JsonModel::Null,
        CborModel::Float(f) => if is_finite_bits(f) {
            JsonModel::Float(f)
        } else {
            JsonModel::Null
        },
        CborModel::Bytes(b) => JsonModel::Str(hex_text(b, false)),
        CborModel::Array(items) => JsonModel::Array(cbor_json_seq(items)),
        CborModel::Mapping(entries) => JsonModel::Object(cbor_json_entries(entries)),
        CborModel::Tag(tag, inner) => if tag == EPOCH_TAG {
            cbor_json(*inner)
        } else {
            JsonModel::Object(
                Map::empty().insert("_tag"@, JsonModel::Int(tag as int)).insert("_value"@, cbor_json(*inner)),
            )
        },
    }
}

pub open spec fn cbor_json_seq(s: Seq<CborModel>) -> Seq<JsonModel>
    decreases s,
{
    if s.len() == 0 {
        Seq::empty()
    } else {
        cbor_json_seq(s.drop_last()).push(cbor_json(s.last()))
    }
}

pub open spec fn cbor_json_entries(s: Seq<(CborModel, CborModel)>) -> Map<Seq<char>, JsonModel>
    decreases s,
{
    if s.len() == 0 {
        Map::empty()
    } else {
        cbor_json_entries(s.drop_last()).insert(json_key(s.last().0), cbor_json(s.last().1))
    }
}

fn json_key_of(k: &CborValue) -> (r: String)
    requires
        k.wf(),
    ensures
        r@ == json_key(k@),
{
    match k {
        CborValue::Text(s) => s.clone(),
        CborValue::Integer(n) => i128_decimal(*n),
        _ => debug_text(k),
    }
}

/// Converts a CBOR value to JSON (`cbor_json`).
#[verifier::loop_isolation(false)]
pub fn cbor_to_json(value: &CborValue) -> (r: JsonValue)
    requires
        value.wf(),
    ensures
        r@ == cbor_json(value@),
    decreases value,
{
    match value {
        CborValue::Integer(n) => JsonValue::Int(*n),
        CborValue::Text(s) => JsonValue::Str(s.clone()),
        CborValue::Bool(b) => JsonValue::Bool(*b),
        CborValue::Null => JsonValue::Null,
        CborValue::Float(f) => if (*f >> 52u64) & 0x7ffu64 != 0x7ffu64 {
            JsonValue::Float(*f)
        } else {
            JsonValue::Null
        },
        CborValue::Bytes(b) => JsonValue::Str(hex_encode(b.as_slice())),
        CborValue::Array(items) => {
            proof {
                lemma_models_of(items@);
                lemma_all_wf(models_of(items@));
            }
            let mut out: Vec<JsonValue> = Vec::new();
            let mut i: usize = 0;
            while i < items.len()
                invariant
                    i <= items.len(),
                    out.len() == i,
                    json_models(out@) == cbor_json_seq(models_of(items@).take(i as int)),
                decreases items.len() - i,
            {
                proof {
                    assert(decreases_to!(*value => (*value)->Array_0));
                    assert(decreases_to!(*items => items@));
                    assert(decreases_to!(items@ => items@[i as int]));
                    assert(models_of(items@)[i as int] == items@[i as int]@);
                }
                let j = cbor_to_json(&items[i]);
                let ghost before = out@;
                out.push(j);
                proof {
                    let ms = models_of(items@);
                    assert(ms.take(i + 1).drop_last() =~= ms.take(i as int));
                    assert(out@.drop_last() =~= before);
                }
                i = i + 1;
            }
            assert(models_of(items@).take(items.len() as int) =~= models_of(items@));
            JsonValue::Array(out)
        },
        CborValue::Mapping(entries) => {
            proof {
                lemma_entry_models_of(entries@);
                lemma_all_entries_wf(entry_models_of(entries@));
            }
            let mut members: Vec<(String, JsonValue)> = Vec::new();
            let mut i: usize = 0;
            while i < entries.len()
                invariant
                    i <= entries.len(),
                    object_model(members@) == cbor_json_entries(entry_models_of(entries@).take(i as int)),
                decreases entries.len() - i,
            {
                proof {
                    assert(decreases_to!(*value => (*value)->Mapping_0));
                    assert(decreases_to!(*entries => entries@));
                    assert(decreases_to!(entries@ => entries@[i as int]));
                    assert(decreases_to!(entries@[i as int] => entries@[i as int].1));
                    assert(entry_models_of(entries@)[i as int] == (entries@[i as int].0@, entries@[i as int].1@));
                    assert(model_wf(entry_models_of(entries@)[i as int].0));
                    assert(model_wf(entry_models_of(entries@)[i as int].1));
                }
                let key = json_key_of(&entries[i].0);
                let j = cbor_to_json(&entries[i].1);
                proof {
                    lemma_object_push(members@, key, j);
                    let es = entry_models_of(entries@);
                    assert(es.take(i + 1).drop_last() =~= es.take(i as int));
                }
                members.push((key, j));
                i = i + 1;
            }
            assert(entry_models_of(entries@).take(entries.len() as int) =~= entry_models_of(entries@));
            JsonValue::Object(members)
        },
        CborValue::Tag(tag, inner) => {
            if *tag == EPOCH_TAG {
                cbor_to_json(inner)
            } else {
                let mut members: Vec<(String, JsonValue)> = Vec::new();
                obj_insert(&mut members, "_tag", JsonValue::Int(*tag as i128));
                let j = cbor_to_json(inner);
                obj_insert(&mut members, "_value", j);
                assert(object_model(Seq::<(String, JsonValue)>::empty()) == Map::<Seq<char>, JsonModel>::empty());
                JsonValue::Object(members)
            }
        },
    }
}

} // verus!

verus! {

/// No member from position `from` on is named `k`.
pub open spec fn no_member_from(s: Seq<(String, JsonValue)>, k: Seq<char>, from: int) -> bool {
    forall|j: int| from <= j < s.len() ==> (#[trigger] s[j]).0@ != k
}

proof fn lemma_object_last_member(s: Seq<(String, JsonValue)>, k: Seq<char>, i: int)
    requires
        0 <= i < s.len(),
        s[i].0@ == k,
        no_member_from(s, k, i + 1),
    ensures
        object_model(s).contains_key(k),
        object_model(s)[k] == json_model(s[i].1),
    decreases s.len(),
{
    if i < s.len() - 1 {
        let t = s.drop_last();
        assert forall|j: int| i + 1 <= j < t.len() implies (#[trigger] t[j]).0@ != k by {
            assert(t[j] == s[j]);
        }
        lemma_object_last_member(t, k, i);
        assert(s[s.len() - 1].0@ != k);
    }
}

proof fn lemma_object_no_member(s: Seq<(String, JsonValue)>, k: Seq<char>)
    requires
        no_member_from(s, k, 0),
    ensures
        !object_model(s).contains_key(k),
    decreases s.len(),
{
    if s.len() > 0 {
        let t = s.drop_last();
        assert forall|j: int| 0 <= j < t.len() implies (#[trigger] t[j]).0@ != k by {
            assert(t[j] == s[j]);
        }
        lemma_object_no_member(t, k);
        assert(s[s.len() - 1].0@ != k);
    }
}

/// The member `name` of an object (`serde_json::Value::get`); none for a
/// missing member or a value that is no object.
#[verifier::loop_isolation(false)]
pub fn json_get<'a>(v: &'a JsonValue, name: &str) -> (r: Option<&'a JsonValue>)
    ensures
        match v@ {
            JsonModel::Object(m) => if m.contains_key(name@) {
                r is Some && r.unwrap()@ == m[name@]
            } else {
                r is None
            },
            _ => r is None,
        },
{
    match v {
        JsonValue::Object(members) => {
            let mut i: usize = members.len();
            while i > 0
                invariant
                    i <= members.len(),
                    no_member_from(members@, name@, i as int),
                decreases i,
            {
                if str_eq_string(&members[i - 1].0, name) {
                    proof {
                        lemma_object_last_member(members@, name@, i - 1);
                    }
                    return Some(&members[i - 1].1);
                }
                i = i - 1;
            }
            proof {
                lemma_object_no_member(members@, name@);
            }
            None
        },
        _ => None,
    }
}

fn str_eq_string(a: &String, b: &str) -> (r: bool)
    ensures
        r == (a@ == b@),
{
    crate::text::str_eq(a.as_str(), b)
}

/// The text of a string value (`as_str`).
pub fn json_as_str(v: &JsonValue) -> (r: Option<&str>)
    ensures
        match v@ {
            JsonModel::Str(s) => r is Some && r.unwrap()@ == s,
            _ => r is None,
        },
{
    match v {
        JsonValue::Str(s) => Some(s.as_str()),
        _ => None,
    }
}

/// The items of an array value (`as_array`).
pub fn json_as_array(v: &JsonValue) -> (r: Option<&Vec<JsonValue>>)
    ensures
        match v@ {
            JsonModel::Array(items) => r is Some && json_models(r.unwrap()@) == items,
            _ => r is None,
        },
{
    match v {
        JsonValue::Array(items) => Some(items),
        _ => None,
    }
}

/// The number of a value that is a non-negative integer fitting a `u64` (`as_u64`).
pub fn json_as_u64(v: &JsonValue) -> (r: Option<u64>)
    ensures
        r == (match v@ {
            JsonModel::Int(n) => if 0 <= n <= u64::MAX {
                Some(n as u64)
            } else {
                None
            },
            _ => None,
        }),
{
    match v {
        JsonValue::Int(n) => if 0 <= *n && *n <= u64::MAX as i128 {
            Some(*n as u64)
        } else {
            None
        },
        _ => None,
    }
}

/// The text of the member `name` where it is a string
/// (`v.get(name).and_then(|x| x.as_str())`).
pub open spec fn member_str(v: JsonModel, name: Seq<char>) -> Option<Seq<char>> {
    match v {
        JsonModel::Object(m) => if m.contains_key(name) && m[name] is Str {
            Some(m[name]->Str_0)
        } else {
            None
        },
        _ => None,
    }
}

/// The text of the member `name` where it is a string.
pub fn get_str<'a>(v: &'a JsonValue, name: &str) -> (r: Option<&'a str>)
    ensures
        match r {
            Some(s) => member_str(v@, name@) == Some(s@),
            None => member_str(v@, name@) is None,
        },
{
    match json_get(v, name) {
        Some(x) => json_as_str(x),
        None => None,
    }
}

} // verus!
