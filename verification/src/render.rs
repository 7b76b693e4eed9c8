//! Rendering content blocks (in their JSON form) as lines of plain text for a
//! terminal: headings with `#`, lists with bullets or numbers, quotes, code
//! fences, tables, calls to action, separators, definitions, notes, embeds.
use vstd::prelude::*;
use vstd::utf8::encode_utf8;
use crate::json::{JsonValue, JsonModel, json_models, lemma_json_models, member_str, json_get, json_as_str, json_as_array, json_as_u64, get_str};
use crate::describe::join;
use crate::text::{decimal, push_char, u64_decimal};

verus! {

/// A text or the default where there is none.
pub open spec fn text_or(v: Option<Seq<char>>, d: Seq<char>) -> Seq<char> {
    match v {
        Some(s) => s,
        None => d,
    }
}

/// A member of an object, where it is an integer that `u64` holds.
pub open spec fn u64_member(b: JsonModel, k: Seq<char>) -> Option<u64> {
    match b {
        JsonModel::Object(m) => if m.contains_key(k) && m[k] is Int && 0 <= m[k]->Int_0 <= u64::MAX {
            Some(m[k]->Int_0 as u64)
        } else {
            None
        },
        _ => None,
    }
}

/// A member of an object, where it is an array.
pub open spec fn array_member(b: JsonModel, k: Seq<char>) -> Option<Seq<JsonModel>> {
    match b {
        JsonModel::Object(m) => if m.contains_key(k) && m[k] is Array {
            Some(m[k]->Array_0)
        } else {
            None
        },
        _ => None,
    }
}

/// A value's text, empty where it is no string.
pub open spec fn as_text(v: JsonModel) -> Seq<char> {
    match v {
        JsonModel::Str(s) => s,
        _ => Seq::empty(),
    }
}

/// `n` times the character.
pub open spec fn repeat_char(c: char, n: nat) -> Seq<char> {
    Seq::new(n, |_i: int| c)
}

/// The strings among the values, in order.
pub open spec fn str_items(s: Seq<JsonModel>) -> Seq<Seq<char>>
    decreases s.len(),
{
    if s.len() == 0 {
        Seq::empty()
    } else if s.last() is Str {
        str_items(s.drop_last()).push(s.last()->Str_0)
    } else {
        str_items(s.drop_last())
    }
}

/// A table line of cells.
pub open spec fn table_line(cells: Seq<Seq<char>>) -> Seq<char> {
    "| "@ + join(cells, " | "@) + " |"@
}

/// The line under a table's headers: for each header, dashes two longer than
/// its UTF-8 length.
pub open spec fn rule_line(headers: Seq<Seq<char>>) -> Seq<char> {
    "|"@ + join(headers.map_values(|h: Seq<char>| repeat_char('-', encode_utf8(h).len() + 2)), "|"@) + "|"@
}

/// The lines of a table's rows that are arrays.
pub open spec fn row_lines(rows: Seq<JsonModel>) -> Seq<Seq<char>>
    decreases rows.len(),
{
    if rows.len() == 0 {
        Seq::empty()
    } else if rows.last() is Array {
        row_lines(rows.drop_last()).push(table_line(str_items(rows.last()->Array_0)))
    } else {
        row_lines(rows.drop_last())
    }
}

/// The lines of a numbered list.
pub open spec fn numbered_lines(items: Seq<JsonModel>) -> Seq<Seq<char>> {
    Seq::new(items.len(), |i: int| "  "@ + decimal((i + 1) as nat) + ". "@ + as_text(items[i]))
}

/// The lines of a block.
pub open spec fn block_lines(b: JsonModel) -> Seq<Seq<char>> {
    let ty = text_or(member_str(b, "type"@), Seq::empty());
    let text = text_or(member_str(b, "text"@), Seq::empty());
    if ty == "h"@ {
        let level = match u64_member(b, "level"@) {
            Some(l) => l,
            None => 1u64,
        };
        seq![Seq::empty(), repeat_char('#', (level as usize) as nat) + " "@ + text]
    } else if ty == "p"@ {
        seq![text]
    } else if ty == "ul"@ {
        match array_member(b, "items"@) {
            Some(items) => items.map_values(|it: JsonModel| "  • "@ + as_text(it)),
            None => Seq::empty(),
        }
    } else if ty == "ol"@ {
        match array_member(b, "items"@) {
            Some(items) => numbered_lines(items),
            None => Seq::empty(),
        }
    } else if ty == "q"@ {
        let attribution = text_or(member_str(b, "attribution"@), Seq::empty());
        if attribution.len() > 0 {
            seq!["  > "@ + text, "    — "@ + attribution]
        } else {
            seq!["  > "@ + text]
        }
    } else if ty == "code"@ {
        seq!["```"@ + text_or(member_str(b, "language"@), Seq::empty()), text, "```"@]
    } else if ty == "table"@ {
        let head = match array_member(b, "headers"@) {
            Some(h) => seq![table_line(str_items(h)), rule_line(str_items(h))],
            None => Seq::empty(),
        };
        let body = match array_member(b, "rows"@) {
            Some(rows) => row_lines(rows),
            None => Seq::empty(),
        };
        head + body
    } else if ty == "cta"@ {
        seq!["["@ + text + "] → "@ + text_or(member_str(b, "href"@), Seq::empty())]
    } else if ty == "sep"@ {
        seq!["---"@]
    } else if ty == "dl"@ {
        match array_member(b, "items"@) {
            Some(items) => items.map_values(
                |it: JsonModel|
                    "  "@ + text_or(member_str(it, "term"@), Seq::empty()) + " — "@ + text_or(
                        member_str(it, "def"@),
                        Seq::empty(),
                    ),
            ),
            None => Seq::empty(),
        }
    } else if ty == "note"@ {
        let level = text_or(member_str(b, "level"@), "info"@);
        let prefix = if level == "important"@ {
            "!!"@
        } else if level == "warn"@ {
            "⚠"@
        } else {
            "ℹ"@
        };
        seq!["["@ + prefix + "] "@ + text]
    } else if ty == "embed"@ {
        let src = text_or(member_str(b, "src"@), Seq::empty());
        let desc = text_or(member_str(b, "description"@), Seq::empty());
        if desc.len() == 0 {
            seq!["[embed] "@ + src]
        } else {
            seq!["[embed] "@ + src + " — "@ + desc]
        }
    } else {
        Seq::empty()
    }
}

// ── Rendering ──

fn text_member(b: &JsonValue, k: &str, d: &str) -> (r: String)
    ensures
        r@ == text_or(member_str(b@, k@), d@),
{
    match get_str(b, k) {
        Some(s) => String::from_str(s),
        None => String::from_str(d),
    }
}

fn u64_member_of(b: &JsonValue, k: &str) -> (r: Option<u64>)
    ensures
        r == u64_member(b@, k@),
{
    match json_get(b, k) {
        Some(v) => json_as_u64(v),
        None => None,
    }
}

fn array_member_of<'a>(b: &'a JsonValue, k: &str) -> (r: Option<&'a Vec<JsonValue>>)
    ensures
        match r {
            Some(items) => array_member(b@, k@) == Some(json_models(items@)),
            None => array_member(b@, k@) is None,
        },
{
    match json_get(b, k) {
        Some(v) => json_as_array(v),
        None => None,
    }
}

fn as_text_of(v: &JsonValue) -> (r: String)
    ensures
        r@ == as_text(v@),
{
    match json_as_str(v) {
        Some(s) => String::from_str(s),
        None => String::new(),
    }
}

fn repeat(c: char, n: usize) -> (r: String)
    ensures
        r@ == repeat_char(c, n as nat),
{
    let mut r = String::new();
    let mut i: usize = 0;
    while i < n
        invariant
            i <= n,
            r@ == repeat_char(c, i as nat),
        decreases n - i,
    {
        push_char(&mut r, c);
        i = i + 1;
        assert(r@ =~= repeat_char(c, i as nat));
    }
    r
}

fn str_items_of(items: &Vec<JsonValue>) -> (r: Vec<String>)
    ensures
        r@.map_values(|s: String| s@) == str_items(json_models(items@)),
{
    let ghost m = json_models(items@);
    proof {
        lemma_json_models(items@);
        assert(m.take(0) =~= Seq::<JsonModel>::empty());
    }
    let mut r: Vec<String> = Vec::new();
    let mut i: usize = 0;
    while i < items.len()
        invariant
            i <= items.len(),
            m == json_models(items@),
            m.len() == items.len(),
            forall|j: int| 0 <= j < items.len() ==> #[trigger] m[j] == items@[j]@,
            r@.map_values(|s: String| s@) == str_items(m.take(i as int)),
        decreases items.len() - i,
    {
        assert(m.take(i + 1).drop_last() =~= m.take(i as int));
        match json_as_str(&items[i]) {
            Some(s) => {
                let ghost before = r@;
                r.push(String::from_str(s));
                assert(r@.map_values(|s: String| s@) =~= before.map_values(|s: String| s@).push(s@));
            },
            None => {},
        }
        i = i + 1;
    }
    assert(m.take(items.len() as int) =~= m);
    r
}

fn cat2(a: &str, b: &str) -> (r: String)
    ensures
        r@ == a@ + b@,
{
    let mut r = String::from_str(a);
    r.append(b);
    r
}

fn cat3(a: &str, b: &str, c: &str) -> (r: String)
    ensures
        r@ == a@ + b@ + c@,
{
    let mut r = String::from_str(a);
    r.append(b);
    r.append(c);
    r
}

fn cat4(a: &str, b: &str, c: &str, d: &str) -> (r: String)
    ensures
        r@ == a@ + b@ + c@ + d@,
{
    let mut r = String::from_str(a);
    r.append(b);
    r.append(c);
    r.append(d);
    r
}

fn table_line_of(cells: &Vec<String>) -> (r: String)
    ensures
        r@ == table_line(cells@.map_values(|s: String| s@)),
{
    let inner = crate::describe::join_strs(cells, cells.len(), " | ");
    assert(cells@.map_values(|s: String| s@).take(cells.len() as int) =~= cells@.map_values(|s: String| s@));
    cat3("| ", inner.as_str(), " |")
}

fn rule_line_of(headers: &Vec<String>) -> (r: String)
    ensures
        r@ == rule_line(headers@.map_values(|s: String| s@)),
{
    let ghost hv = headers@.map_values(|s: String| s@);
    let mut dashes: Vec<String> = Vec::new();
    let mut i: usize = 0;
    while i < headers.len()
        invariant
            i <= headers.len(),
            hv == headers@.map_values(|s: String| s@),
            dashes.len() == i,
            forall|j: int| 0 <= j < i ==> (#[trigger] dashes@[j])@ == repeat_char('-', encode_utf8(hv[j]).len() + 2),
        decreases headers.len() - i,
    {
        let n = headers[i].as_str().as_bytes().len();
        assert(hv[i as int] == headers@[i as int]@);
        let mut d = repeat('-', n);
        push_char(&mut d, '-');
        push_char(&mut d, '-');
        assert(d@ =~= repeat_char('-', encode_utf8(hv[i as int]).len() + 2));
        dashes.push(d);
        i = i + 1;
    }
    let inner = crate::describe::join_strs(&dashes, dashes.len(), "|");
    assert(dashes@.map_values(|s: String| s@).take(dashes.len() as int) =~= hv.map_values(
        |h: Seq<char>| repeat_char('-', encode_utf8(h).len() + 2),
    ));
    cat3("|", inner.as_str(), "|")
}

/// The lines of plain text that show a content block (`block_lines`).
pub fn block_text_lines(block: &JsonValue) -> (r: Vec<String>)
    ensures
        r@.map_values(|s: String| s@) == block_lines(block@),
{
    proof {
        reveal_strlit("");
        assert(""@ =~= Seq::<char>::empty());
    }
    let ty = text_member(block, "type", "");
    let text = text_member(block, "text", "");
    let mut out: Vec<String> = Vec::new();
    let ghost b = block@;
    if crate::text::str_eq(ty.as_str(), "h") {
        let level = match u64_member_of(block, "level") {
            Some(l) => l,
            None => 1,
        };
        out.push(String::new());
        let hashes = repeat('#', level as usize);
        out.push(cat3(hashes.as_str(), " ", text.as_str()));
    } else if crate::text::str_eq(ty.as_str(), "p") {
        out.push(text);
    } else if crate::text::str_eq(ty.as_str(), "ul") {
        match array_member_of(block, "items") {
            Some(items) => {
                proof {
                    lemma_json_models(items@);
                }
                let mut i: usize = 0;
                while i < items.len()
                    invariant
                        i <= items.len(),
                        out.len() == i,
                        json_models(items@).len() == items.len(),
                        forall|j: int| 0 <= j < items.len() ==> #[trigger] json_models(items@)[j] == items@[j]@,
                        forall|j: int| 0 <= j < i ==> (#[trigger] out@[j])@ == "  • "@ + as_text(items@[j]@),
                    decreases items.len() - i,
                {
                    let s = as_text_of(&items[i]);
                    out.push(cat2("  • ", s.as_str()));
                    i = i + 1;
                }
            },
            None => {},
        }
    } else if crate::text::str_eq(ty.as_str(), "ol") {
        match array_member_of(block, "items") {
            Some(items) => {
                proof {
                    lemma_json_models(items@);
                }
                let mut i: usize = 0;
                while i < items.len()
                    invariant
                        i <= items.len(),
                        out.len() == i,
                        json_models(items@).len() == items.len(),
                        forall|j: int| 0 <= j < items.len() ==> #[trigger] json_models(items@)[j] == items@[j]@,
                        forall|j: int| 0 <= j < i ==> (#[trigger] out@[j])@ == "  "@ + decimal((j + 1) as nat) + ". "@
                            + as_text(items@[j]@),
                    decreases items.len() - i,
                {
                    let s = as_text_of(&items[i]);
                    let n = u64_decimal(i as u64 + 1);
                    out.push(cat4("  ", n.as_str(), ". ", s.as_str()));
                    i = i + 1;
                }
            },
            None => {},
        }
    } else if crate::text::str_eq(ty.as_str(), "q") {
        let attribution = text_member(block, "attribution", "");
        out.push(cat2("  > ", text.as_str()));
        if !crate::site::is_empty(&attribution) {
            out.push(cat2("    — ", attribution.as_str()));
        }
    } else if crate::text::str_eq(ty.as_str(), "code") {
        let lang = text_member(block, "language", "");
        out.push(cat2("```", lang.as_str()));
        out.push(text);
        out.push(String::from_str("```"));
    } else if crate::text::str_eq(ty.as_str(), "table") {
        match array_member_of(block, "headers") {
            Some(h) => {
                let hdr = str_items_of(h);
                out.push(table_line_of(&hdr));
                out.push(rule_line_of(&hdr));
            },
            None => {},
        }
        let ghost head = out@.map_values(|s: String| s@);
        match array_member_of(block, "rows") {
            Some(rows) => {
                let ghost m = json_models(rows@);
                proof {
                    lemma_json_models(rows@);
                    assert(m.take(0) =~= Seq::<JsonModel>::empty());
                    assert(out@.map_values(|s: String| s@) =~= head + row_lines(m.take(0)));
                }
                let mut i: usize = 0;
                while i < rows.len()
                    invariant
                        i <= rows.len(),
                        m == json_models(rows@),
                        m.len() == rows.len(),
                        forall|j: int| 0 <= j < rows.len() ==> #[trigger] m[j] == rows@[j]@,
                        out@.map_values(|s: String| s@) == head + row_lines(m.take(i as int)),
                    decreases rows.len() - i,
                {
                    assert(m.take(i + 1).drop_last() =~= m.take(i as int));
                    match json_as_array(&rows[i]) {
                        Some(cells) => {
                            let vals = str_items_of(cells);
                            let ghost before = out@;
                            out.push(table_line_of(&vals));
                            assert(out@.map_values(|s: String| s@) =~= before.map_values(|s: String| s@).push(
                                out@.last()@,
                            ));
                        },
                        None => {},
                    }
                    i = i + 1;
                }
                assert(m.take(rows.len() as int) =~= m);
            },
            None => {
                assert(out@.map_values(|s: String| s@) =~= head + Seq::<Seq<char>>::empty());
            },
        }
    } else if crate::text::str_eq(ty.as_str(), "cta") {
        let href = text_member(block, "href", "");
        out.push(cat4("[", text.as_str(), "] → ", href.as_str()));
    } else if crate::text::str_eq(ty.as_str(), "sep") {
        out.push(String::from_str("---"));
    } else if crate::text::str_eq(ty.as_str(), "dl") {
        match array_member_of(block, "items") {
            Some(items) => {
                proof {
                    lemma_json_models(items@);
                }
                let mut i: usize = 0;
                while i < items.len()
                    invariant
                        i <= items.len(),
                        out.len() == i,
                        json_models(items@).len() == items.len(),
                        forall|j: int| 0 <= j < items.len() ==> #[trigger] json_models(items@)[j] == items@[j]@,
                        ""@ == Seq::<char>::empty(),
                        forall|j: int| 0 <= j < i ==> (#[trigger] out@[j])@ == "  "@ + text_or(member_str(items@[j]@, "term"@), Seq::empty()) + " — "@ + text_or(member_str(items@[j]@, "def"@), Seq::empty()),
                    decreases items.len() - i,
                {
                    let term = text_member(&items[i], "term", "");
                    let def = text_member(&items[i], "def", "");
                    out.push(cat4("  ", term.as_str(), " — ", def.as_str()));
                    i = i + 1;
                }
            },
            None => {},
        }
    } else if crate::text::str_eq(ty.as_str(), "note") {
        let level = text_member(block, "level", "info");
        let prefix = if crate::text::str_eq(level.as_str(), "important") {
            "!!"
        } else if crate::text::str_eq(level.as_str(), "warn") {
            "⚠"
        } else {
            "ℹ"
        };
        out.push(cat4("[", prefix, "] ", text.as_str()));
    } else if crate::text::str_eq(ty.as_str(), "embed") {
        let src = text_member(block, "src", "");
        let desc = text_member(block, "description", "");
        if crate::site::is_empty(&desc) {
            out.push(cat2("[embed] ", src.as_str()));
        } else {
            out.push(cat4("[embed] ", src.as_str(), " — ", desc.as_str()));
        }
    }
    proof {
        assert(out@.map_values(|s: String| s@) =~= block_lines(b));
    }
    out
}

} // verus!
