//! Reading fields out of CBOR-Web documents: map lookups by key, typed
//! fields of text-keyed maps, and page entries of a manifest.
use vstd::prelude::*;
use crate::value::{CborValue, CborModel, model_eq, model_wf, models_of, entry_models_of, lemma_models_of, lemma_entry_models_of, lemma_all_entries_wf, values_equal, clone_value};
use crate::text::str_eq;
use crate::digest::{hex_encode, hex_text};

verus! {

/// The kinds of value a typed field lookup accepts.
#[derive(PartialEq, Eq, Structural, Clone, Copy)]
pub enum FieldKind {
    Text,
    Integer,
    Bool,
    Bytes,
    Array,
}

pub open spec fn has_kind(v: CborModel, kind: FieldKind) -> bool {
    match kind {
        FieldKind::Text => v is Text,
        FieldKind::Integer => v is Integer,
        FieldKind::Bool => v is Bool,
        FieldKind::Bytes => v is Bytes,
        FieldKind::Array => v is Array,
    }
}

/// The entries of a map value; none for any other value.
pub open spec fn entries_of(m: CborModel) -> Seq<(CborModel, CborModel)> {
    match m {
        CborModel::Mapping(e) => e,
        _ => Seq::empty(),
    }
}

/// The value of the first entry whose key is the text `key` and whose value
/// is of the given kind.
pub open spec fn field_of(entries: Seq<(CborModel, CborModel)>, key: Seq<char>, kind: FieldKind) -> Option<CborModel>
    decreases entries.len(),
{
    if entries.len() == 0 {
        None
    } else if entries[0].0 == CborModel::Text(key) && has_kind(entries[0].1, kind) {
        Some(entries[0].1)
    } else {
        field_of(entries.drop_first(), key, kind)
    }
}

/// The value of the first entry whose key equals `key`.
pub open spec fn map_get(entries: Seq<(CborModel, CborModel)>, key: CborModel) -> Option<CborModel>
    decreases entries.len(),
{
    if entries.len() == 0 {
        None
    } else if model_eq(entries[0].0, key) {
        Some(entries[0].1)
    } else {
        map_get(entries.drop_first(), key)
    }
}

/// The value a map holds under `key`; none where `m` is no map.
pub open spec fn lookup(m: CborModel, key: CborModel) -> Option<CborModel> {
    map_get(entries_of(m), key)
}

/// The model of an optional reference to a value.
pub open spec fn opt_model(r: Option<&CborValue>) -> Option<CborModel> {
    match r {
        Some(v) => Some(v@),
        None => None,
    }
}

/// The texts among a sequence of values, in order.
pub open spec fn texts_of(items: Seq<CborModel>) -> Seq<Seq<char>>
    decreases items.len(),
{
    if items.len() == 0 {
        Seq::empty()
    } else {
        let rest = texts_of(items.drop_last());
        match items.last() {
            CborModel::Text(s) => rest.push(s),
            _ => rest,
        }
    }
}

fn has_kind_exec(v: &CborValue, kind: FieldKind) -> (r: bool)
    ensures
        r == has_kind(v@, kind),
{
    match kind {
        FieldKind::Text => matches!(v, CborValue::Text(_)),
        FieldKind::Integer => matches!(v, CborValue::Integer(_)),
        FieldKind::Bool => matches!(v, CborValue::Bool(_)),
        FieldKind::Bytes => matches!(v, CborValue::Bytes(_)),
        FieldKind::Array => matches!(v, CborValue::Array(_)),
    }
}

fn is_text_key(k: &CborValue, key: &str) -> (r: bool)
    ensures
        r == (k@ == CborModel::Text(key@)),
{
    match k {
        CborValue::Text(s) => str_eq(s.as_str(), key),
        _ => false,
    }
}

/// Position of the entry `field_of` names.
fn find_field_index(entries: &[(CborValue, CborValue)], key: &str, kind: FieldKind) -> (r: Option<usize>)
    ensures
        match r {
            Some(i) => i < entries@.len() && field_of(entry_models_of(entries@), key@, kind) == Some(
                entries@[i as int].1@,
            ) && has_kind(entries@[i as int].1@, kind),
            None => field_of(entry_models_of(entries@), key@, kind) is None,
        },
{
    let ghost es = entry_models_of(entries@);
    proof {
        lemma_entry_models_of(entries@);
        assert(es.skip(0) =~= es);
    }
    let mut i: usize = 0;
    while i < entries.len()
        invariant
            i <= entries@.len(),
            es == entry_models_of(entries@),
            es.len() == entries@.len(),
            forall|j: int| 0 <= j < es.len() ==> #[trigger] es[j] == (entries@[j].0@, entries@[j].1@),
            field_of(es, key@, kind) == field_of(es.skip(i as int), key@, kind),
        decreases entries.len() - i,
    {
        let ghost rest = es.skip(i as int);
        assert(rest[0] == es[i as int]);
        if is_text_key(&entries[i].0, key) && has_kind_exec(&entries[i].1, kind) {
            return Some(i);
        }
        assert(rest.drop_first() =~= es.skip(i + 1));
        i = i + 1;
    }
    assert(es.skip(i as int).len() == 0);
    None
}

/// The value under `key` in a map value (the first entry whose key equals it).
#[verifier::loop_isolation(false)]
pub fn get_map_value<'a>(map: &'a CborValue, key: &CborValue) -> (r: Option<&'a CborValue>)
    ensures
        opt_model(r) == lookup(map@, key@),
{
    match map {
        CborValue::Mapping(entries) => {
            let ghost es = entry_models_of(entries@);
            proof {
                lemma_entry_models_of(entries@);
                assert(es.skip(0) =~= es);
            }
            let mut i: usize = 0;
            while i < entries.len()
                invariant
                    i <= entries@.len(),
                    es == entry_models_of(entries@),
                    es.len() == entries@.len(),
                    forall|j: int| 0 <= j < es.len() ==> #[trigger] es[j] == (entries@[j].0@, entries@[j].1@),
                    map_get(es, key@) == map_get(es.skip(i as int), key@),
                decreases entries.len() - i,
            {
                let ghost rest = es.skip(i as int);
                assert(rest[0] == es[i as int]);
                if values_equal(&entries[i].0, key) {
                    return Some(&entries[i].1);
                }
                assert(rest.drop_first() =~= es.skip(i + 1));
                i = i + 1;
            }
            assert(es.skip(i as int).len() == 0);
            None
        },
        _ => None,
    }
}

/// A copy of the value under `key` in a map value.
pub fn get_map_value_owned(map: &CborValue, key: &CborValue) -> (r: Option<CborValue>)
    ensures
        match r {
            Some(v) => lookup(map@, key@) == Some(v@),
            None => lookup(map@, key@) is None,
        },
{
    match get_map_value(map, key) {
        Some(v) => Some(clone_value(v)),
        None => None,
    }
}

/// The items of the array under `key` in a map value; none where that value
/// is missing or no array.
pub fn get_array_value<'a>(map: &'a CborValue, key: &CborValue) -> (r: Option<&'a Vec<CborValue>>)
    ensures
        match r {
            Some(items) => lookup(map@, key@) == Some(CborModel::Array(models_of(items@))),
            None => !(lookup(map@, key@) matches Some(CborModel::Array(_))),
        },
{
    match get_map_value(map, key) {
        Some(CborValue::Array(items)) => Some(items),
        _ => None,
    }
}

/// The entries of a map value.
pub fn map_entries(v: &CborValue) -> (r: &[(CborValue, CborValue)])
    ensures
        entry_models_of(r@) == entries_of(v@),
{
    match v {
        CborValue::Mapping(entries) => entries.as_slice(),
        _ => {
            let empty: &[(CborValue, CborValue)] = &[];
            assert(entry_models_of(empty@) =~= Seq::empty());
            empty
        },
    }
}

/// The first text value under the text key `key` in the entries.
pub fn find_text_in_map<'a>(entries: &'a [(CborValue, CborValue)], key: &str) -> (r: Option<&'a str>)
    ensures
        match r {
            Some(s) => field_of(entry_models_of(entries@), key@, FieldKind::Text) == Some(CborModel::Text(s@)),
            None => field_of(entry_models_of(entries@), key@, FieldKind::Text) is None,
        },
{
    match find_field_index(entries, key, FieldKind::Text) {
        Some(i) => match &entries[i].1 {
            CborValue::Text(s) => Some(s.as_str()),
            _ => None,
        },
        None => None,
    }
}

/// The first integer under the text key `key`, cut to its low 64 bits.
pub fn find_uint_in_map(entries: &[(CborValue, CborValue)], key: &str) -> (r: Option<u64>)
    ensures
        r == (match field_of(entry_models_of(entries@), key@, FieldKind::Integer) {
            Some(CborModel::Integer(n)) => Some(n as u64),
            _ => None,
        }),
{
    match find_field_index(entries, key, FieldKind::Integer) {
        Some(i) => match &entries[i].1 {
            CborValue::Integer(n) => Some(*n as u64),
            _ => None,
        },
        None => None,
    }
}

/// The first byte string under the text key `key`.
pub fn find_bytes_in_map<'a>(entries: &'a [(CborValue, CborValue)], key: &str) -> (r: Option<&'a [u8]>)
    ensures
        match r {
            Some(b) => field_of(entry_models_of(entries@), key@, FieldKind::Bytes) == Some(CborModel::Bytes(b@)),
            None => field_of(entry_models_of(entries@), key@, FieldKind::Bytes) is None,
        },
{
    match find_field_index(entries, key, FieldKind::Bytes) {
        Some(i) => match &entries[i].1 {
            CborValue::Bytes(b) => Some(b.as_slice()),
            _ => None,
        },
        None => None,
    }
}

/// The first text under the text key `key` of an optional map value.
pub fn get_text_field<'a>(parent: Option<&'a CborValue>, key: &str) -> (r: Option<&'a str>)
    ensures
        match r {
            Some(s) => parent is Some && field_of(entries_of(parent.unwrap()@), key@, FieldKind::Text) == Some(
                CborModel::Text(s@),
            ),
            None => parent is None || field_of(entries_of(parent.unwrap()@), key@, FieldKind::Text) is None,
        },
{
    match parent {
        Some(p) => find_text_in_map(map_entries(p), key),
        None => None,
    }
}

/// The first integer under the text key `key` of an optional map value, where
/// it fits a `u64`; none where it does not.
pub fn get_uint_field(parent: Option<&CborValue>, key: &str) -> (r: Option<u64>)
    ensures
        r == (match parent {
            Some(p) => match field_of(entries_of(p@), key@, FieldKind::Integer) {
                Some(CborModel::Integer(n)) => if 0 <= n <= u64::MAX {
                    Some(n as u64)
                } else {
                    None
                },
                _ => None,
            },
            None => None,
        }),
{
    match parent {
        Some(p) => {
            let entries = map_entries(p);
            match find_field_index(entries, key, FieldKind::Integer) {
                Some(i) => match &entries[i].1 {
                    CborValue::Integer(n) => if 0 <= *n && *n <= u64::MAX as i128 {
                        Some(*n as u64)
                    } else {
                        None
                    },
                    _ => None,
                },
                None => None,
            }
        },
        None => None,
    }
}

/// The first boolean under the text key `key` of an optional map value.
pub fn get_bool_field(parent: Option<&CborValue>, key: &str) -> (r: Option<bool>)
    ensures
        r == (match parent {
            Some(p) => match field_of(entries_of(p@), key@, FieldKind::Bool) {
                Some(CborModel::Bool(x)) => Some(x),
                _ => None,
            },
            None => None,
        }),
{
    match parent {
        Some(p) => {
            let entries = map_entries(p);
            match find_field_index(entries, key, FieldKind::Bool) {
                Some(i) => match &entries[i].1 {
                    CborValue::Bool(x) => Some(*x),
                    _ => None,
                },
                None => None,
            }
        },
        None => None,
    }
}

/// The first byte string under the text key `key` of an optional map value.
pub fn get_bytes_field<'a>(parent: Option<&'a CborValue>, key: &str) -> (r: Option<&'a [u8]>)
    ensures
        match r {
            Some(b) => parent is Some && field_of(entries_of(parent.unwrap()@), key@, FieldKind::Bytes) == Some(
                CborModel::Bytes(b@),
            ),
            None => parent is None || field_of(entries_of(parent.unwrap()@), key@, FieldKind::Bytes) is None,
        },
{
    match parent {
        Some(p) => find_bytes_in_map(map_entries(p), key),
        None => None,
    }
}

/// The texts of a sequence of values, skipping the other values.
pub fn text_items(items: &Vec<CborValue>) -> (r: Vec<String>)
    ensures
        r@.map_values(|s: String| s@) == texts_of(models_of(items@)),
{
    let mut r: Vec<String> = Vec::new();
    let mut i: usize = 0;
    proof {
        lemma_models_of(items@);
    }
    while i < items.len()
        invariant
            i <= items.len(),
            models_of(items@).len() == items@.len(),
            forall|j: int| 0 <= j < items@.len() ==> #[trigger] models_of(items@)[j] == items@[j]@,
            r@.map_values(|s: String| s@) == texts_of(models_of(items@).take(i as int)),
        decreases items.len() - i,
    {
        let ghost ms = models_of(items@);
        assert(ms.take(i + 1).drop_last() =~= ms.take(i as int));
        assert(ms.take(i + 1).last() == items@[i as int]@);
        match &items[i] {
            CborValue::Text(s) => {
                let ghost before = r@;
                r.push(s.clone());
                assert(r@.map_values(|s: String| s@) =~= before.map_values(|s: String| s@).push(s@));
            },
            _ => {},
        }
        i = i + 1;
    }
    assert(models_of(items@).take(items.len() as int) =~= models_of(items@));
    r
}

/// The texts of the array under the text key `key` of an optional map value;
/// empty where there is none.
pub fn get_array_field(parent: Option<&CborValue>, key: &str) -> (r: Vec<String>)
    ensures
        r@.map_values(|s: String| s@) == (match parent {
            Some(p) => match field_of(entries_of(p@), key@, FieldKind::Array) {
                Some(CborModel::Array(items)) => texts_of(items),
                _ => Seq::empty(),
            },
            None => Seq::empty(),
        }),
{
    match parent {
        Some(p) => {
            let entries = map_entries(p);
            match find_field_index(entries, key, FieldKind::Array) {
                Some(i) => match &entries[i].1 {
                    CborValue::Array(items) => text_items(items),
                    _ => Vec::new(),
                },
                None => {
                    let r: Vec<String> = Vec::new();
                    assert(r@.map_values(|s: String| s@) =~= Seq::empty());
                    r
                },
            }
        },
        None => {
            let r: Vec<String> = Vec::new();
            assert(r@.map_values(|s: String| s@) =~= Seq::empty());
            r
        },
    }
}

} // verus!

verus! {

proof fn lemma_map_get_wf(entries: Seq<(CborModel, CborModel)>, key: CborModel)
    requires
        forall|i: int| 0 <= i < entries.len() ==> model_wf(#[trigger] entries[i].0) && model_wf(entries[i].1),
    ensures
        map_get(entries, key) matches Some(v) ==> model_wf(v),
    decreases entries.len(),
{
    if entries.len() > 0 {
        assert(model_wf(entries[0].1));
        let rest = entries.drop_first();
        assert forall|i: int| 0 <= i < rest.len() implies model_wf(#[trigger] rest[i].0) && model_wf(rest[i].1) by {
            assert(rest[i] == entries[i + 1]);
        }
        lemma_map_get_wf(rest, key);
    }
}

/// What a well-formed map holds under a key is well-formed.
pub proof fn lemma_lookup_wf(m: CborModel, key: CborModel)
    requires
        model_wf(m),
    ensures
        lookup(m, key) matches Some(v) ==> model_wf(v),
{
    if m is Mapping {
        lemma_all_entries_wf(m->Mapping_0);
        lemma_map_get_wf(m->Mapping_0, key);
    }
}

} // verus!
