//! Navigation hints for content blocks: a short description (`_describe`) and
//! a depth level (`_l`) added to each block.
use vstd::prelude::*;
use vstd::utf8::{encode_utf8, decode_utf8, is_char_boundary};
use crate::value::{CborValue, CborModel, entry_models_of, lemma_entry_models_of, lemma_all_entries_wf, model_wf, clone_value, t, u};
use crate::text::{str_eq, push_char, chars_of, white_space, is_whitespace, decimal, u64_decimal};
use crate::lookup::texts_of;
use crate::canonical::{canonical_map, canonical_entries};

verus! {

/// The value of the first entry whose key is the text `key`.
pub open spec fn first_with_key(entries: Seq<(CborModel, CborModel)>, key: Seq<char>) -> Option<CborModel>
    decreases entries.len(),
{
    if entries.len() == 0 {
        None
    } else if entries[0].0 == CborModel::Text(key) {
        Some(entries[0].1)
    } else {
        first_with_key(entries.drop_first(), key)
    }
}

/// The text of the first entry under `key`, where that value is a text.
pub open spec fn key_text(entries: Seq<(CborModel, CborModel)>, key: Seq<char>) -> Option<Seq<char>> {
    match first_with_key(entries, key) {
        Some(CborModel::Text(s)) => Some(s),
        _ => None,
    }
}

/// The items of the first entry under `key`, where that value is an array.
pub open spec fn key_array(entries: Seq<(CborModel, CborModel)>, key: Seq<char>) -> Option<Seq<CborModel>> {
    match first_with_key(entries, key) {
        Some(CborModel::Array(items)) => Some(items),
        _ => None,
    }
}

/// The first `n` bytes of a text's UTF-8 form, read back as characters.
pub open spec fn byte_prefix(s: Seq<char>, n: int) -> Seq<char> {
    decode_utf8(encode_utf8(s).subrange(0, n))
}

/// `s` cut to its first `n` bytes where it is longer.
pub open spec fn cut_bytes(s: Seq<char>, n: int) -> Seq<char> {
    if encode_utf8(s).len() > n { byte_prefix(s, n) } else { s }
}

/// Cutting `s` after `n` bytes falls between characters.
pub open spec fn cut_ok(s: Seq<char>, n: int) -> bool {
    encode_utf8(s).len() > n ==> is_char_boundary(encode_utf8(s), n)
}

/// The words of a text and the word still being read: maximal runs of
/// characters that are not white space, read from the left.
pub open spec fn split_ws(s: Seq<char>) -> (Seq<Seq<char>>, Seq<char>)
    decreases s.len(),
{
    if s.len() == 0 {
        (Seq::empty(), Seq::empty())
    } else {
        let (ws, cur) = split_ws(s.drop_last());
        if white_space(s.last()) {
            if cur.len() > 0 { (ws.push(cur), Seq::empty()) } else { (ws, Seq::empty()) }
        } else {
            (ws, cur.push(s.last()))
        }
    }
}

/// The words of a text (`str::split_whitespace`).
pub open spec fn words_of(s: Seq<char>) -> Seq<Seq<char>> {
    let (ws, cur) = split_ws(s);
    if cur.len() > 0 { ws.push(cur) } else { ws }
}

/// The texts joined with `sep` between them.
pub open spec fn join(parts: Seq<Seq<char>>, sep: Seq<char>) -> Seq<char>
    decreases parts.len(),
{
    if parts.len() == 0 {
        Seq::empty()
    } else if parts.len() == 1 {
        parts[0]
    } else {
        join(parts.drop_last(), sep) + sep + parts.last()
    }
}

/// The description of a block of the given type, value and level (empty
/// where the block gets none).
pub open spec fn describe_text(entries: Seq<(CborModel, CborModel)>, ty: Seq<char>, value: Seq<char>, level: u64) -> Seq<char> {
    if ty == "h"@ {
        "Heading level "@ + decimal(level as nat) + ": "@ + cut_bytes(value, 50)
    } else if ty == "p"@ {
        if encode_utf8(value).len() > 100 {
            let ws = words_of(value);
            join(ws.take(if ws.len() < 30 { ws.len() as int } else { 30 }), " "@) + "..."@
        } else {
            Seq::empty()
        }
    } else if ty == "table"@ {
        let headers = match key_array(entries, "headers"@) {
            Some(items) => join(texts_of(items), ", "@),
            None => Seq::empty(),
        };
        let rows: nat = match key_array(entries, "rows"@) {
            Some(items) => items.len(),
            None => 0,
        };
        "Table: "@ + headers + ". "@ + decimal(rows) + " rows."@
    } else if ty == "ul"@ || ty == "ol"@ {
        let count: nat = match key_array(entries, "v"@) {
            Some(items) => items.len(),
            None => 0,
        };
        "List: "@ + decimal(count) + " items."@
    } else if ty == "cta"@ {
        "Call to action: "@ + value + " -> "@ + match key_text(entries, "href"@) {
            Some(h) => h,
            None => Seq::empty(),
        }
    } else if ty == "img"@ {
        "Image: "@ + match key_text(entries, "alt"@) {
            Some(a) => a,
            None => "Image"@,
        }
    } else if ty == "q"@ {
        "Quote: "@ + cut_bytes(value, 40) + "..."@
    } else if ty == "code"@ {
        "Code block: "@ + match key_text(entries, "lang"@) {
            Some(l) => l,
            None => "unknown"@,
        }
    } else {
        Seq::empty()
    }
}

/// The depth level of a block: 0 identity (h1), 1 essential (h2, table, cta),
/// 2 detail (p, lists, h3 and deeper, unknown types), 3 complete (quote, code,
/// definitions), 4 enrichment (image, separator, embed).
pub open spec fn depth_level(ty: Seq<char>, level: u64) -> u64 {
    if ty == "h"@ && level == 1 {
        0
    } else if ty == "h"@ && level == 2 {
        1
    } else if ty == "table"@ || ty == "cta"@ {
        1
    } else if ty == "p"@ || ty == "ul"@ || ty == "ol"@ {
        2
    } else if ty == "h"@ {
        2
    } else if ty == "q"@ || ty == "code"@ || ty == "dl"@ {
        3
    } else if ty == "img"@ || ty == "sep"@ || ty == "embed"@ {
        4
    } else {
        2
    }
}

/// A block's type ("t"), value ("v") and heading level ("l", cut to 64 bits):
/// the first entries under those keys, where they are of the right kind.
pub open spec fn block_fields(entries: Seq<(CborModel, CborModel)>) -> (Seq<char>, Seq<char>, u64) {
    (
        match key_text(entries, "t"@) {
            Some(s) => s,
            None => Seq::empty(),
        },
        match key_text(entries, "v"@) {
            Some(s) => s,
            None => Seq::empty(),
        },
        match first_with_key(entries, "l"@) {
            Some(CborModel::Integer(n)) => n as u64,
            _ => 0,
        },
    )
}

/// A block can be described: its value is cut between characters where its
/// description cuts it.
pub open spec fn describable(block: CborModel) -> bool {
    match block {
        CborModel::Mapping(entries) => {
            let (ty, value, _) = block_fields(entries);
            (ty == "h"@ ==> cut_ok(value, 50)) && (ty == "q"@ ==> cut_ok(value, 40))
        },
        _ => true,
    }
}

/// A block with its hints: the block's entries, then `_describe` where the
/// description is not empty, then `_l`, in deterministic order; any value that
/// is no map stays as it is.
pub open spec fn enriched(block: CborModel) -> CborModel {
    match block {
        CborModel::Mapping(entries) => {
            let (ty, value, level) = block_fields(entries);
            let d = describe_text(entries, ty, value, level);
            let with_d = if d.len() > 0 { entries.push((CborModel::Text("_describe"@), CborModel::Text(d))) } else { entries };
            CborModel::Mapping(canonical_entries(with_d.push((CborModel::Text("_l"@), CborModel::Integer(depth_level(ty, level) as int)))))
        },
        _ => block,
    }
}

} // verus!

verus! {

fn first_key_index(entries: &[(CborValue, CborValue)], key: &str) -> (r: Option<usize>)
    ensures
        match r {
            Some(i) => i < entries@.len() && first_with_key(entry_models_of(entries@), key@) == Some(entries@[i as int].1@),
            None => first_with_key(entry_models_of(entries@), key@) is None,
        },
{
    let ghost es = entry_models_of(entries@);
    proof {
        lemma_entry_models_of(entries@);
        assert(es.skip(0) =~= es);
    }
    let mut i: usize = 0;
    while i < entries.len()
        invariant
            i <= entries@.len(),
            es == entry_models_of(entries@),
            es.len() == entries@.len(),
            forall|j: int| 0 <= j < es.len() ==> #[trigger] es[j] == (entries@[j].0@, entries@[j].1@),
            first_with_key(es, key@) == first_with_key(es.skip(i as int), key@),
        decreases entries.len() - i,
    {
        let ghost rest = es.skip(i as int);
        assert(rest[0] == es[i as int]);
        let hit = match &entries[i].0 {
            CborValue::Text(s) => str_eq(s.as_str(), key),
            _ => false,
        };
        if hit {
            return Some(i);
        }
        assert(rest.drop_first() =~= es.skip(i + 1));
        i = i + 1;
    }
    assert(es.skip(i as int).len() == 0);
    None
}

/// The words of a text (`words_of`).
pub fn split_words(s: &str) -> (r: Vec<String>)
    ensures
        r@.map_values(|w: String| w@) == words_of(s@),
{
    let cs = chars_of(s);
    let mut ws: Vec<String> = Vec::new();
    let mut cur: Vec<char> = Vec::new();
    let mut i: usize = 0;
    while i < cs.len()
        invariant
            i <= cs.len(),
            (ws@.map_values(|w: String| w@), cur@) == split_ws(cs@.take(i as int)),
        decreases cs.len() - i,
    {
        assert(cs@.take(i + 1).drop_last() =~= cs@.take(i as int));
        let c = cs[i];
        if is_whitespace(c) {
            if cur.len() > 0 {
                let ghost before = ws@;
                ws.push(crate::text::string_of(&cur));
                assert(ws@.map_values(|w: String| w@) =~= before.map_values(|w: String| w@).push(cur@));
                cur = Vec::new();
            } else {
                cur = Vec::new();
            }
        } else {
            cur.push(c);
        }
        i = i + 1;
    }
    assert(cs@.take(cs.len() as int) =~= cs@);
    if cur.len() > 0 {
        let ghost before = ws@;
        ws.push(crate::text::string_of(&cur));
        assert(ws@.map_values(|w: String| w@) =~= before.map_values(|w: String| w@).push(cur@));
    }
    ws
}

/// The texts joined with `sep` between them (`join`).
pub fn join_strs(parts: &Vec<String>, count: usize, sep: &str) -> (r: String)
    requires
        count <= parts.len(),
    ensures
        r@ == join(parts@.map_values(|w: String| w@).take(count as int), sep@),
{
    let ghost ps = parts@.map_values(|w: String| w@);
    let mut r = String::new();
    let mut i: usize = 0;
    while i < count
        invariant
            count <= parts.len(),
            ps == parts@.map_values(|w: String| w@),
            i <= count,
            r@ == join(ps.take(i as int), sep@),
        decreases count - i,
    {
        assert(ps.take(i + 1).drop_last() =~= ps.take(i as int));
        if i > 0 {
            r.append(sep);
        } else {
            assert(join(ps.take(1), sep@) == ps.take(1)[0]);
        }
        r.append(parts[i].as_str());
        i = i + 1;
    }
    r
}

/// `s` cut to its first `n` bytes where it is longer (`cut_bytes`).
pub fn cut_text(s: &str, n: usize) -> (r: String)
    requires
        cut_ok(s@, n as int),
    ensures
        r@ == cut_bytes(s@, n as int),
{
    if s.as_bytes().len() > n {
        let (head, _tail) = s.split_at(n);
        proof {
            vstd::utf8::encode_utf8_decode_utf8(head@);
        }
        head.to_owned()
    } else {
        s.to_owned()
    }
}

} // verus!

verus! {

fn key_text_exec<'a>(entries: &'a [(CborValue, CborValue)], key: &str) -> (r: Option<&'a str>)
    ensures
        match r {
            Some(s) => key_text(entry_models_of(entries@), key@) == Some(s@),
            None => key_text(entry_models_of(entries@), key@) is None,
        },
{
    match first_key_index(entries, key) {
        Some(i) => match &entries[i].1 {
            CborValue::Text(s) => Some(s.as_str()),
            _ => None,
        },
        None => None,
    }
}

fn key_array_exec<'a>(entries: &'a [(CborValue, CborValue)], key: &str) -> (r: Option<&'a Vec<CborValue>>)
    ensures
        match r {
            Some(items) => key_array(entry_models_of(entries@), key@) == Some(crate::value::models_of(items@)),
            None => key_array(entry_models_of(entries@), key@) is None,
        },
{
    match first_key_index(entries, key) {
        Some(i) => match &entries[i].1 {
            CborValue::Array(items) => Some(items),
            _ => None,
        },
        None => None,
    }
}

fn text_or<'a>(o: Option<&'a str>, d: &'a str) -> (r: &'a str)
    ensures
        r@ == match o {
            Some(s) => s@,
            None => d@,
        },
{
    match o {
        Some(s) => s,
        None => d,
    }
}

/// The description of a block (`describe_text`).
fn describe_for(entries: &[(CborValue, CborValue)], ty: &str, value: &str, level: u64) -> (r: String)
    requires
        ty@ == "h"@ ==> cut_ok(value@, 50),
        ty@ == "q"@ ==> cut_ok(value@, 40),
    ensures
        r@ == describe_text(entry_models_of(entries@), ty@, value@, level),
{
    let ghost es = entry_models_of(entries@);
    proof {
        reveal_strlit("");
    }
    if str_eq(ty, "h") {
        let mut r = "Heading level ".to_owned();
        r.append(u64_decimal(level).as_str());
        r.append(": ");
        r.append(cut_text(value, 50).as_str());
        r
    } else if str_eq(ty, "p") {
        if value.as_bytes().len() > 100 {
            let ws = split_words(value);
            let n = if ws.len() < 30 { ws.len() } else { 30 };
            assert(ws@.map_values(|w: String| w@).len() == ws.len());
            let mut r = join_strs(&ws, n, " ");
            r.append("...");
            r
        } else {
            String::new()
        }
    } else if str_eq(ty, "table") {
        let headers = match key_array_exec(entries, "headers") {
            Some(items) => {
                let texts = crate::lookup::text_items(items);
                assert(texts@.map_values(|w: String| w@).take(texts.len() as int) =~= texts@.map_values(|w: String| w@));
                join_strs(&texts, texts.len(), ", ")
            },
            None => String::new(),
        };
        let rows: usize = match key_array_exec(entries, "rows") {
            Some(items) => {
                proof {
                    crate::value::lemma_models_of(items@);
                }
                items.len()
            },
            None => 0,
        };
        let mut r = "Table: ".to_owned();
        r.append(headers.as_str());
        r.append(". ");
        r.append(u64_decimal(rows as u64).as_str());
        r.append(" rows.");
        r
    } else if str_eq(ty, "ul") || str_eq(ty, "ol") {
        let count: usize = match key_array_exec(entries, "v") {
            Some(items) => {
                proof {
                    crate::value::lemma_models_of(items@);
                }
                items.len()
            },
            None => 0,
        };
        let mut r = "List: ".to_owned();
        r.append(u64_decimal(count as u64).as_str());
        r.append(" items.");
        r
    } else if str_eq(ty, "cta") {
        let mut r = "Call to action: ".to_owned();
        r.append(value);
        r.append(" -> ");
        r.append(text_or(key_text_exec(entries, "href"), ""));
        r
    } else if str_eq(ty, "img") {
        let mut r = "Image: ".to_owned();
        r.append(text_or(key_text_exec(entries, "alt"), "Image"));
        r
    } else if str_eq(ty, "q") {
        let mut r = "Quote: ".to_owned();
        r.append(cut_text(value, 40).as_str());
        r.append("...");
        r
    } else if str_eq(ty, "code") {
        let mut r = "Code block: ".to_owned();
        r.append(text_or(key_text_exec(entries, "lang"), "unknown"));
        r
    } else {
        String::new()
    }
}

/// The depth level of a block (`depth_level`).
fn depth_level_exec(ty: &str, level: u64) -> (r: u64)
    ensures
        r == depth_level(ty@, level),
{
    if str_eq(ty, "h") && level == 1 {
        0
    } else if str_eq(ty, "h") && level == 2 {
        1
    } else if str_eq(ty, "table") || str_eq(ty, "cta") {
        1
    } else if str_eq(ty, "p") || str_eq(ty, "ul") || str_eq(ty, "ol") {
        2
    } else if str_eq(ty, "h") {
        2
    } else if str_eq(ty, "q") || str_eq(ty, "code") || str_eq(ty, "dl") {
        3
    } else if str_eq(ty, "img") || str_eq(ty, "sep") || str_eq(ty, "embed") {
        4
    } else {
        2
    }
}

fn clone_entries(entries: &[(CborValue, CborValue)]) -> (r: Vec<(CborValue, CborValue)>)
    ensures
        entry_models_of(r@) == entry_models_of(entries@),
{
    let mut out: Vec<(CborValue, CborValue)> = Vec::new();
    let mut i: usize = 0;
    while i < entries.len()
        invariant
            i <= entries.len(),
            out.len() == i,
            forall|j: int| 0 <= j < i ==> (#[trigger] out@[j]).0@ == entries@[j].0@ && out@[j].1@ == entries@[j].1@,
        decreases entries.len() - i,
    {
        let k = clone_value(&entries[i].0);
        let v = clone_value(&entries[i].1);
        out.push((k, v));
        i = i + 1;
    }
    proof {
        lemma_entry_models_of(out@);
        lemma_entry_models_of(entries@);
        assert(entry_models_of(out@) =~= entry_models_of(entries@));
    }
    out
}

/// Whether a block can be described (`describable`): a heading's value cut at
/// 50 bytes, and a quote's at 40, falls between characters.
pub fn is_describable(block: &CborValue) -> (r: bool)
    requires
        block.wf(),
    ensures
        r == describable(block@),
{
    match block {
        CborValue::Mapping(pairs) => {
            let entries = pairs.as_slice();
            let ghost es = entry_models_of(entries@);
            proof {
                reveal_strlit("");
            }
            let block_type: &str = text_or(key_text_exec(entries, "t"), "");
            let block_value: &str = text_or(key_text_exec(entries, "v"), "");
            assert(es == entry_models_of(pairs@));
            assert(block@ == CborModel::Mapping(es));
            assert(block_fields(es).0 == block_type@);
            assert(block_fields(es).1 == block_value@);
            let is_h = crate::text::str_eq(block_type, "h");
            let is_q = crate::text::str_eq(block_type, "q");
            let n = block_value.as_bytes().len();
            assert(n == vstd::utf8::encode_utf8(block_value@).len());
            let h_ok = !is_h || n <= 50 || block_value.is_char_boundary(50);
            assert(h_ok == (block_type@ == "h"@ ==> cut_ok(block_value@, 50)));
            let q_ok = !is_q || n <= 40 || block_value.is_char_boundary(40);
            assert(q_ok == (block_type@ == "q"@ ==> cut_ok(block_value@, 40)));
            h_ok && q_ok
        },
        _ => true,
    }
}

/// A block with its navigation hints (`enriched`).
pub fn enrich_block_with_describe(block: &CborValue) -> (r: CborValue)
    requires
        block.wf(),
        describable(block@),
    ensures
        r@ == enriched(block@),
        r.wf(),
{
    match block {
        CborValue::Mapping(pairs) => {
            let entries = pairs.as_slice();
            let ghost es = entry_models_of(entries@);
            proof {
                reveal_strlit("");
            }
            let block_type: &str = text_or(key_text_exec(entries, "t"), "");
            let block_value: &str = text_or(key_text_exec(entries, "v"), "");
            let block_level: u64 = match first_key_index(entries, "l") {
                Some(i) => match &entries[i].1 {
                    CborValue::Integer(n) => *n as u64,
                    _ => 0,
                },
                None => 0,
            };
            assert(es == entry_models_of(pairs@));
            assert(block@ == CborModel::Mapping(es));
            assert(block_fields(es).0 == block_type@);
            assert(block_fields(es).1 == block_value@);
            assert(describable(block@));
            let describe = describe_for(entries, block_type, block_value, block_level);
            let level = depth_level_exec(block_type, block_level);
            let mut new_pairs = clone_entries(entries);
            let ghost with_d;
            if !describe.as_str().is_empty() {
                let ghost before = new_pairs@;
                let ghost dview = describe@;
                let key = t("_describe");
                let val = CborValue::Text(describe);
                assert(val@ == CborModel::Text(dview));
                new_pairs.push((key, val));
                proof {
                    assert(new_pairs@.drop_last() =~= before);
                    assert(entry_models_of(before) == es);
                    assert(new_pairs@.last().1@ == CborModel::Text(dview));
                    assert(new_pairs@.last().0@ == CborModel::Text("_describe"@));
                    assert(entry_models_of(new_pairs@) == entry_models_of(before).push((CborModel::Text("_describe"@), CborModel::Text(dview))));
                    with_d = es.push((CborModel::Text("_describe"@), CborModel::Text(describe_text(es, block_type@, block_value@, block_level))));
                    assert(entry_models_of(new_pairs@) == with_d);
                }
            } else {
                proof {
                    with_d = es;
                    assert(entry_models_of(new_pairs@) == with_d);
                }
            }
            let ghost before2 = new_pairs@;
            new_pairs.push((t("_l"), u(level)));
            proof {
                assert(new_pairs@.drop_last() =~= before2);
                assert(entry_models_of(new_pairs@) == with_d.push((CborModel::Text("_l"@), CborModel::Integer(level as int))));
                lemma_entry_models_of(new_pairs@);
                lemma_all_entries_wf(es);
                assert(crate::value::all_entries_wf(es));
                assert(forall|j: int| 0 <= j < es.len() ==> model_wf(#[trigger] es[j].0) && model_wf(es[j].1));
                assert forall|i: int| 0 <= i < new_pairs@.len() implies (#[trigger] new_pairs@[i]).0.wf() && new_pairs@[i].1.wf() by {
                    assert(entry_models_of(new_pairs@)[i] == (new_pairs@[i].0@, new_pairs@[i].1@));
                    if i < es.len() {
                        assert(entry_models_of(new_pairs@)[i] == es[i]);
                        assert(crate::value::all_entries_wf(es));
                        assert(0 <= i < es.len());
                        assert(model_wf(es[i].0));
                    }
                }
            }
            canonical_map(new_pairs)
        },
        _ => clone_value(block),
    }
}

} // verus!

verus! {

/// Every block with its navigation hints, in order.
pub fn enrich_blocks(blocks: &Vec<CborValue>) -> (r: Vec<CborValue>)
    requires
        forall|i: int| 0 <= i < blocks.len() ==> (#[trigger] blocks@[i]).wf() && describable(blocks@[i]@),
    ensures
        r.len() == blocks.len(),
        forall|i: int| 0 <= i < r.len() ==> (#[trigger] r@[i])@ == enriched(blocks@[i]@) && r@[i].wf(),
{
    let mut out: Vec<CborValue> = Vec::new();
    let mut i: usize = 0;
    while i < blocks.len()
        invariant
            i <= blocks.len(),
            out.len() == i,
            forall|j: int| 0 <= j < blocks.len() ==> (#[trigger] blocks@[j]).wf() && describable(blocks@[j]@),
            forall|j: int| 0 <= j < i ==> (#[trigger] out@[j])@ == enriched(blocks@[j]@) && out@[j].wf(),
        decreases blocks.len() - i,
    {
        out.push(enrich_block_with_describe(&blocks[i]));
        i = i + 1;
    }
    out
}

} // verus!
