//! Page content of CBOR-Web documents as JSON: content blocks and pages.
use vstd::prelude::*;
use crate::value::{CborValue, CborModel, model_wf, models_of, entry_models_of, lemma_models_of, lemma_entry_models_of, lemma_all_wf, lemma_all_entries_wf};
use crate::lookup::{field_of, FieldKind, texts_of, text_items, find_text_in_map, find_uint_in_map, lookup, get_map_value, get_array_value, get_text_field, entries_of};
use crate::json::{JsonValue, JsonModel, json_model, json_models, lemma_json_models, object_model, obj_insert, str_array, cbor_json, cbor_to_json, jstr};
use crate::text::str_eq;

verus! {

/// The text under the text key `key`, where there is one.
pub open spec fn text_member(entries: Seq<(CborModel, CborModel)>, key: Seq<char>) -> Option<Seq<char>> {
    match field_of(entries, key, FieldKind::Text) {
        Some(CborModel::Text(s)) => Some(s),
        _ => None,
    }
}

/// The items of the last array under the text key `key`, where there is one.
pub open spec fn last_array(entries: Seq<(CborModel, CborModel)>, key: Seq<char>) -> Option<Seq<CborModel>>
    decreases entries.len(),
{
    if entries.len() == 0 {
        None
    } else if entries.last().0 == CborModel::Text(key) && entries.last().1 is Array {
        Some(entries.last().1->Array_0)
    } else {
        last_array(entries.drop_last(), key)
    }
}

/// A JSON array of strings.
pub open spec fn strs_json(ss: Seq<Seq<char>>) -> JsonModel {
    JsonModel::Array(ss.map_values(|s: Seq<char>| JsonModel::Str(s)))
}

/// Adds the member `name` with the text, where there is one.
pub open spec fn with_text(m: Map<Seq<char>, JsonModel>, name: Seq<char>, t: Option<Seq<char>>) -> Map<Seq<char>, JsonModel> {
    match t {
        Some(s) => m.insert(name, JsonModel::Str(s)),
        None => m,
    }
}

/// A table row: the texts of an array, empty for any other value.
pub open spec fn row_json(row: CborModel) -> JsonModel {
    match row {
        CborModel::Array(cells) => strs_json(texts_of(cells)),
        _ => JsonModel::Array(Seq::empty()),
    }
}

/// The text-to-text pairs of a map, a later pair replacing an earlier one.
pub open spec fn text_pairs(pairs: Seq<(CborModel, CborModel)>) -> Map<Seq<char>, JsonModel>
    decreases pairs.len(),
{
    if pairs.len() == 0 {
        Map::empty()
    } else {
        let rest = text_pairs(pairs.drop_last());
        match (pairs.last().0, pairs.last().1) {
            (CborModel::Text(k), CborModel::Text(v)) => rest.insert(k, JsonModel::Str(v)),
            _ => rest,
        }
    }
}

/// A definition list item: the text pairs of a map, null for any other value.
pub open spec fn dl_item_json(item: CborModel) -> JsonModel {
    match item {
        CborModel::Mapping(pairs) => JsonModel::Object(text_pairs(pairs)),
        _ => JsonModel::Null,
    }
}

/// The members that a block of the given type carries besides its type.
pub open spec fn block_members(
    entries: Seq<(CborModel, CborModel)>,
    ty: Seq<char>,
    block: CborModel,
    base: Map<Seq<char>, JsonModel>,
) -> Map<Seq<char>, JsonModel> {
    if ty == "h"@ {
        let with_level = match field_of(entries, "l"@, FieldKind::Integer) {
            Some(CborModel::Integer(n)) => base.insert("level"@, JsonModel::Int((n as u64) as int)),
            _ => base,
        };
        with_text(with_level, "text"@, text_member(entries, "v"@))
    } else if ty == "p"@ {
        with_text(base, "text"@, text_member(entries, "v"@))
    } else if ty == "ul"@ || ty == "ol"@ {
        match last_array(entries, "v"@) {
            Some(items) => base.insert("items"@, strs_json(texts_of(items))),
            None => base,
        }
    } else if ty == "q"@ {
        with_text(with_text(base, "text"@, text_member(entries, "v"@)), "attribution"@, text_member(entries, "attr"@))
    } else if ty == "code"@ {
        with_text(with_text(base, "text"@, text_member(entries, "v"@)), "language"@, text_member(entries, "lang"@))
    } else if ty == "table"@ {
        let with_headers = match last_array(entries, "headers"@) {
            Some(hs) => base.insert("headers"@, strs_json(texts_of(hs))),
            None => base,
        };
        match last_array(entries, "rows"@) {
            Some(rows) => with_headers.insert("rows"@, JsonModel::Array(rows.map_values(|r: CborModel| row_json(r)))),
            None => with_headers,
        }
    } else if ty == "cta"@ {
        with_text(with_text(base, "text"@, text_member(entries, "v"@)), "href"@, text_member(entries, "href"@))
    } else if ty == "img"@ || ty == "image"@ {
        with_text(with_text(base, "alt"@, text_member(entries, "alt"@)), "src"@, text_member(entries, "src"@))
    } else if ty == "dl"@ {
        match last_array(entries, "v"@) {
            Some(items) => base.insert("items"@, JsonModel::Array(items.map_values(|i: CborModel| dl_item_json(i)))),
            None => base,
        }
    } else if ty == "note"@ {
        with_text(with_text(base, "text"@, text_member(entries, "v"@)), "level"@, text_member(entries, "level"@))
    } else if ty == "embed"@ {
        with_text(with_text(base, "src"@, text_member(entries, "src"@)), "description"@, text_member(entries, "description"@))
    } else if ty == "sep"@ {
        base
    } else {
        base.insert("_raw"@, cbor_json(block))
    }
}

/// The JSON form of a content block: an object with its `type` (the text under
/// "t", "unknown" where there is none) and the members its type carries; null
/// for a block that is no map. Blocks of unknown type keep their whole content
/// under `_raw`.
pub open spec fn block_json(block: CborModel) -> JsonModel {
    match block {
        CborModel::Mapping(entries) => {
            let ty = match text_member(entries, "t"@) {
                Some(s) => s,
                None => "unknown"@,
            };
            JsonModel::Object(block_members(entries, ty, block, Map::empty().insert("type"@, JsonModel::Str(ty))))
        },
        _ => JsonModel::Null,
    }
}

/// Position of the last array under the text key `key`.
fn last_array_index(entries: &[(CborValue, CborValue)], key: &str) -> (r: Option<usize>)
    ensures
        match r {
            Some(i) => i < entries@.len() && entries@[i as int].1 is Array && last_array(entry_models_of(entries@), key@)
                == Some(entries@[i as int].1@->Array_0),
            None => last_array(entry_models_of(entries@), key@) is None,
        },
{
    let ghost es = entry_models_of(entries@);
    proof {
        lemma_entry_models_of(entries@);
    }
    let mut found: Option<usize> = None;
    let mut i: usize = 0;
    while i < entries.len()
        invariant
            i <= entries@.len(),
            es == entry_models_of(entries@),
            es.len() == entries@.len(),
            forall|j: int| 0 <= j < es.len() ==> #[trigger] es[j] == (entries@[j].0@, entries@[j].1@),
            match found {
                Some(j) => j < i && entries@[j as int].1 is Array && last_array(es.take(i as int), key@) == Some(
                    entries@[j as int].1@->Array_0,
                ),
                None => last_array(es.take(i as int), key@) is None,
            },
        decreases entries.len() - i,
    {
        assert(es.take(i + 1).drop_last() =~= es.take(i as int));
        assert(es.take(i + 1).last() == es[i as int]);
        let is_key = match &entries[i].0 {
            CborValue::Text(s) => str_eq(s.as_str(), key),
            _ => false,
        };
        if is_key && matches!(entries[i].1, CborValue::Array(_)) {
            found = Some(i);
        }
        i = i + 1;
    }
    assert(es.take(i as int) =~= es);
    found
}

/// Adds a text member where the text is present.
fn insert_text(members: &mut Vec<(String, JsonValue)>, name: &str, t: Option<&str>)
    ensures
        object_model(final(members)@) == with_text(
            object_model(old(members)@),
            name@,
            match t {
                Some(s) => Some(s@),
                None => None,
            },
        ),
{
    match t {
        Some(s) => obj_insert(members, name, jstr(s)),
        None => {},
    }
}

fn text_member_exec<'a>(entries: &'a [(CborValue, CborValue)], key: &str) -> (r: Option<&'a str>)
    ensures
        match r {
            Some(s) => text_member(entry_models_of(entries@), key@) == Some(s@),
            None => text_member(entry_models_of(entries@), key@) is None,
        },
{
    find_text_in_map(entries, key)
}

fn row_to_json(row: &CborValue) -> (r: JsonValue)
    ensures
        r@ == row_json(row@),
{
    match row {
        CborValue::Array(cells) => {
            let texts = text_items(cells);
            let r = str_array(&texts);
            assert(texts@.map_values(|s: String| JsonModel::Str(s@)) =~= texts_of(models_of(cells@)).map_values(
                |s: Seq<char>| JsonModel::Str(s),
            ));
            r
        },
        _ => {
            let r = JsonValue::Array(Vec::new());
            assert(json_models(Seq::<JsonValue>::empty()) =~= Seq::<JsonModel>::empty());
            r
        },
    }
}

fn dl_item_to_json(item: &CborValue) -> (r: JsonValue)
    ensures
        r@ == dl_item_json(item@),
{
    match item {
        CborValue::Mapping(pairs) => {
            proof {
                lemma_entry_models_of(pairs@);
            }
            let mut members: Vec<(String, JsonValue)> = Vec::new();
            let mut i: usize = 0;
            while i < pairs.len()
                invariant
                    i <= pairs.len(),
                    entry_models_of(pairs@).len() == pairs@.len(),
                    forall|j: int| 0 <= j < pairs@.len() ==> #[trigger] entry_models_of(pairs@)[j] == (pairs@[j].0@, pairs@[j].1@),
                    object_model(members@) == text_pairs(entry_models_of(pairs@).take(i as int)),
                decreases pairs.len() - i,
            {
                let ghost es = entry_models_of(pairs@);
                assert(es.take(i + 1).drop_last() =~= es.take(i as int));
                assert(es.take(i + 1).last() == es[i as int]);
                match (&pairs[i].0, &pairs[i].1) {
                    (CborValue::Text(k), CborValue::Text(v)) => {
                        obj_insert(&mut members, k.as_str(), JsonValue::Str(v.clone()));
                    },
                    _ => {},
                }
                i = i + 1;
            }
            assert(entry_models_of(pairs@).take(pairs.len() as int) =~= entry_models_of(pairs@));
            JsonValue::Object(members)
        },
        _ => JsonValue::Null,
    }
}

fn map_rows(rows: &Vec<CborValue>) -> (r: JsonValue)
    ensures
        r@ == JsonModel::Array(models_of(rows@).map_values(|x: CborModel| row_json(x))),
{
    proof {
        lemma_models_of(rows@);
    }
    let mut out: Vec<JsonValue> = Vec::new();
    let mut i: usize = 0;
    while i < rows.len()
        invariant
            i <= rows.len(),
            out.len() == i,
            forall|j: int| 0 <= j < i ==> json_model(#[trigger] out@[j]) == row_json(rows@[j]@),
        decreases rows.len() - i,
    {
        out.push(row_to_json(&rows[i]));
        i = i + 1;
    }
    proof {
        lemma_json_models(out@);
        lemma_models_of(rows@);
        assert(json_models(out@) =~= models_of(rows@).map_values(|x: CborModel| row_json(x)));
    }
    JsonValue::Array(out)
}

fn map_dl_items(items: &Vec<CborValue>) -> (r: JsonValue)
    ensures
        r@ == JsonModel::Array(models_of(items@).map_values(|x: CborModel| dl_item_json(x))),
{
    proof {
        lemma_models_of(items@);
    }
    let mut out: Vec<JsonValue> = Vec::new();
    let mut i: usize = 0;
    while i < items.len()
        invariant
            i <= items.len(),
            out.len() == i,
            forall|j: int| 0 <= j < i ==> json_model(#[trigger] out@[j]) == dl_item_json(items@[j]@),
        decreases items.len() - i,
    {
        out.push(dl_item_to_json(&items[i]));
        i = i + 1;
    }
    proof {
        lemma_json_models(out@);
        lemma_models_of(items@);
        assert(json_models(out@) =~= models_of(items@).map_values(|x: CborModel| dl_item_json(x)));
    }
    JsonValue::Array(out)
}

fn texts_json(items: &Vec<CborValue>) -> (r: JsonValue)
    ensures
        r@ == strs_json(texts_of(models_of(items@))),
{
    let texts = text_items(items);
    let r = str_array(&texts);
    assert(texts@.map_values(|s: String| JsonModel::Str(s@)) =~= texts_of(models_of(items@)).map_values(
        |s: Seq<char>| JsonModel::Str(s),
    ));
    r
}

} // verus!

verus! {

/// The JSON form of a content block (`block_json`).
pub fn cbor_block_to_json(block: &CborValue) -> (r: JsonValue)
    requires
        block.wf(),
    ensures
        r@ == block_json(block@),
{
    match block {
        CborValue::Mapping(es) => {
            let entries = es.as_slice();
            let ghost em = entry_models_of(entries@);
            let block_type: &str = match find_text_in_map(entries, "t") {
                Some(s) => s,
                None => "unknown",
            };
            let mut obj: Vec<(String, JsonValue)> = Vec::new();
            obj_insert(&mut obj, "type", jstr(block_type));
            let ghost base = object_model(obj@);
            assert(object_model(Seq::<(String, JsonValue)>::empty()) == Map::<Seq<char>, JsonModel>::empty());
            if str_eq(block_type, "h") {
                match find_uint_in_map(entries, "l") {
                    Some(level) => obj_insert(&mut obj, "level", JsonValue::Int(level as i128)),
                    None => {},
                }
                insert_text(&mut obj, "text", text_member_exec(entries, "v"));
            } else if str_eq(block_type, "p") {
                insert_text(&mut obj, "text", text_member_exec(entries, "v"));
            } else if str_eq(block_type, "ul") || str_eq(block_type, "ol") {
                match last_array_index(entries, "v") {
                    Some(i) => match &entries[i].1 {
                        CborValue::Array(items) => obj_insert(&mut obj, "items", texts_json(items)),
                        _ => {},
                    },
                    None => {},
                }
            } else if str_eq(block_type, "q") {
                insert_text(&mut obj, "text", text_member_exec(entries, "v"));
                insert_text(&mut obj, "attribution", text_member_exec(entries, "attr"));
            } else if str_eq(block_type, "code") {
                insert_text(&mut obj, "text", text_member_exec(entries, "v"));
                insert_text(&mut obj, "language", text_member_exec(entries, "lang"));
            } else if str_eq(block_type, "table") {
                match last_array_index(entries, "headers") {
                    Some(i) => match &entries[i].1 {
                        CborValue::Array(items) => obj_insert(&mut obj, "headers", texts_json(items)),
                        _ => {},
                    },
                    None => {},
                }
                match last_array_index(entries, "rows") {
                    Some(i) => match &entries[i].1 {
                        CborValue::Array(rows) => obj_insert(&mut obj, "rows", map_rows(rows)),
                        _ => {},
                    },
                    None => {},
                }
            } else if str_eq(block_type, "cta") {
                insert_text(&mut obj, "text", text_member_exec(entries, "v"));
                insert_text(&mut obj, "href", text_member_exec(entries, "href"));
            } else if str_eq(block_type, "img") || str_eq(block_type, "image") {
                insert_text(&mut obj, "alt", text_member_exec(entries, "alt"));
                insert_text(&mut obj, "src", text_member_exec(entries, "src"));
            } else if str_eq(block_type, "dl") {
                match last_array_index(entries, "v") {
                    Some(i) => match &entries[i].1 {
                        CborValue::Array(items) => obj_insert(&mut obj, "items", map_dl_items(items)),
                        _ => {},
                    },
                    None => {},
                }
            } else if str_eq(block_type, "note") {
                insert_text(&mut obj, "text", text_member_exec(entries, "v"));
                insert_text(&mut obj, "level", text_member_exec(entries, "level"));
            } else if str_eq(block_type, "embed") {
                insert_text(&mut obj, "src", text_member_exec(entries, "src"));
                insert_text(&mut obj, "description", text_member_exec(entries, "description"));
            } else if str_eq(block_type, "sep") {
            } else {
                obj_insert(&mut obj, "_raw", cbor_to_json(block));
            }
            JsonValue::Object(obj)
        },
        _ => JsonValue::Null,
    }
}

} // verus!

verus! {

/// The integer key `n`.
pub open spec fn int_key(n: int) -> CborModel {
    CborModel::Integer(n)
}

/// The JSON form of a page document: `path` and `lang` of its identity (key
/// 2), `title` and `description` of its metadata (key 3), its content blocks
/// (key 4) as `blocks`, and its structured data (key 6), where present.
pub open spec fn page_json(page: CborModel) -> JsonModel {
    let m1 = match lookup(page, int_key(2)) {
        Some(identity) => with_text(
            with_text(Map::empty(), "path"@, text_member(entries_of(identity), "path"@)),
            "lang"@,
            text_member(entries_of(identity), "lang"@),
        ),
        None => Map::empty(),
    };
    let m2 = match lookup(page, int_key(3)) {
        Some(metadata) => with_text(
            with_text(m1, "title"@, text_member(entries_of(metadata), "title"@)),
            "description"@,
            text_member(entries_of(metadata), "description"@),
        ),
        None => m1,
    };
    let blocks = match lookup(page, int_key(4)) {
        Some(CborModel::Array(items)) => items.map_values(|b: CborModel| block_json(b)),
        _ => Seq::empty(),
    };
    let m3 = m2.insert("blocks"@, JsonModel::Array(blocks));
    JsonModel::Object(
        match lookup(page, int_key(6)) {
            Some(sd) => m3.insert("structured_data"@, cbor_json(sd)),
            None => m3,
        },
    )
}

/// The JSON form of a page document (`page_json`).
pub fn extract_page_content(page: &CborValue) -> (r: JsonValue)
    requires
        page.wf(),
    ensures
        r@ == page_json(page@),
{
    let mut result: Vec<(String, JsonValue)> = Vec::new();
    assert(object_model(result@) == Map::<Seq<char>, JsonModel>::empty());
    let k2 = CborValue::Integer(2);
    let k3 = CborValue::Integer(3);
    let k4 = CborValue::Integer(4);
    let k6 = CborValue::Integer(6);
    match get_map_value(page, &k2) {
        Some(identity) => {
            insert_text(&mut result, "path", get_text_field(Some(identity), "path"));
            insert_text(&mut result, "lang", get_text_field(Some(identity), "lang"));
        },
        None => {},
    }
    match get_map_value(page, &k3) {
        Some(metadata) => {
            insert_text(&mut result, "title", get_text_field(Some(metadata), "title"));
            insert_text(&mut result, "description", get_text_field(Some(metadata), "description"));
        },
        None => {},
    }
    let mut blocks: Vec<JsonValue> = Vec::new();
    match get_array_value(page, &k4) {
        Some(content) => {
            proof {
                crate::lookup::lemma_lookup_wf(page@, k4@);
                lemma_models_of(content@);
                lemma_all_wf(models_of(content@));
                assert forall|j: int| 0 <= j < content@.len() implies (#[trigger] content@[j]).wf() by {
                    assert(models_of(content@)[j] == content@[j]@);
                    assert(model_wf(models_of(content@)[j]));
                }
            }
            let mut i: usize = 0;
            while i < content.len()
                invariant
                    i <= content.len(),
                    blocks.len() == i,
                    forall|j: int| 0 <= j < content@.len() ==> (#[trigger] content@[j]).wf(),
                    forall|j: int| 0 <= j < i ==> json_model(#[trigger] blocks@[j]) == block_json(content@[j]@),
                decreases content.len() - i,
            {
                blocks.push(cbor_block_to_json(&content[i]));
                i = i + 1;
            }
            proof {
                lemma_json_models(blocks@);
                assert(json_models(blocks@) =~= models_of(content@).map_values(|b: CborModel| block_json(b)));
            }
        },
        None => {
            assert(json_models(blocks@) =~= Seq::<JsonModel>::empty());
        },
    }
    obj_insert(&mut result, "blocks", JsonValue::Array(blocks));
    match get_map_value(page, &k6) {
        Some(sd) => {
            proof {
                crate::lookup::lemma_lookup_wf(page@, k6@);
            }
            obj_insert(&mut result, "structured_data", cbor_to_json(sd));
        },
        None => {},
    }
    JsonValue::Object(result)
}

} // verus!
