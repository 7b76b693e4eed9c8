//! What the content operations do, stated over all inputs: which members a
//! search looks into, which elements the extraction walks into, the depth
//! hint of a block, the members the JSON form of a block carries, and the
//! plain-text lines of a block.
use vstd::prelude::*;
use crate::value::CborModel;
use crate::json::JsonModel;
use crate::text::{seq_contains, lowercase_of};
use crate::crawl::block_hit;
use crate::html::{HtmlModel, AttrMap};
use crate::page::{Collected, extract_child, extract_children};
use crate::describe::{enriched, first_with_key};
use crate::canonical::{canonical_entries, canonical_arrangement, hits, lemma_arrangement_exists};
use crate::content::{block_json, text_member};
use crate::render::block_lines;

verus! {

/// The lengths and some characters of the words the content rules compare,
/// enough to tell any two of them apart.
proof fn lemma_words()
    ensures
        "h1"@.len() == 2 && "h1"@[0] == 'h' && "h1"@[1] == '1',
        "h2"@.len() == 2 && "h2"@[0] == 'h' && "h2"@[1] == '2',
        "h3"@.len() == 2 && "h3"@[0] == 'h' && "h3"@[1] == '3',
        "h4"@.len() == 2 && "h4"@[0] == 'h' && "h4"@[1] == '4',
        "h5"@.len() == 2 && "h5"@[0] == 'h' && "h5"@[1] == '5',
        "h6"@.len() == 2 && "h6"@[0] == 'h' && "h6"@[1] == '6',
        "p"@.len() == 1 && "p"@[0] == 'p',
        "ul"@.len() == 2 && "ul"@[0] == 'u',
        "ol"@.len() == 2 && "ol"@[0] == 'o',
        "blockquote"@.len() == 10 && "blockquote"@[0] == 'b',
        "pre"@.len() == 3 && "pre"@[0] == 'p',
        "table"@.len() == 5 && "table"@[0] == 't',
        "img"@.len() == 3 && "img"@[0] == 'i',
        "hr"@.len() == 2 && "hr"@[0] == 'h',
        "dl"@.len() == 2 && "dl"@[0] == 'd',
        "div"@.len() == 3 && "div"@[0] == 'd',
        "section"@.len() == 7 && "section"@[0] == 's',
        "main"@.len() == 4 && "main"@[0] == 'm',
        "article"@.len() == 7 && "article"@[0] == 'a',
        "aside"@.len() == 5 && "aside"@[0] == 'a',
        "header"@.len() == 6 && "header"@[0] == 'h',
        "footer"@.len() == 6 && "footer"@[0] == 'f',
        "nav"@.len() == 3 && "nav"@[0] == 'n',
        "figure"@.len() == 6 && "figure"@[0] == 'f',
        "figcaption"@.len() == 10 && "figcaption"@[0] == 'f',
        "details"@.len() == 7 && "details"@[0] == 'd',
        "summary"@.len() == 7 && "summary"@[0] == 's',
        "h"@.len() == 1 && "h"@[0] == 'h',
        "q"@.len() == 1 && "q"@[0] == 'q',
        "code"@.len() == 4 && "code"@[0] == 'c',
        "cta"@.len() == 3 && "cta"@[0] == 'c',
        "image"@.len() == 5 && "image"@[0] == 'i',
        "note"@.len() == 4 && "note"@[0] == 'n',
        "embed"@.len() == 5 && "embed"@[0] == 'e',
        "sep"@.len() == 3 && "sep"@[0] == 's',
        "type"@.len() == 4 && "type"@[0] == 't' && "type"@[2] == 'p',
        "text"@.len() == 4 && "text"@[0] == 't' && "text"@[2] == 'x',
        "attribution"@.len() == 11 && "attribution"@[0] == 'a',
        "language"@.len() == 8 && "language"@[0] == 'l',
        "href"@.len() == 4 && "href"@[0] == 'h',
        "alt"@.len() == 3 && "alt"@[0] == 'a',
        "src"@.len() == 3 && "src"@[0] == 's',
        "level"@.len() == 5 && "level"@[0] == 'l',
        "description"@.len() == 11 && "description"@[0] == 'd',
        "v"@.len() == 1 && "v"@[0] == 'v',
        "attr"@.len() == 4 && "attr"@[0] == 'a',
        "lang"@.len() == 4 && "lang"@[0] == 'l',
{
    reveal_strlit("h1");
    reveal_strlit("h2");
    reveal_strlit("h3");
    reveal_strlit("h4");
    reveal_strlit("h5");
    reveal_strlit("h6");
    reveal_strlit("p");
    reveal_strlit("ul");
    reveal_strlit("ol");
    reveal_strlit("blockquote");
    reveal_strlit("pre");
    reveal_strlit("table");
    reveal_strlit("img");
    reveal_strlit("hr");
    reveal_strlit("dl");
    reveal_strlit("div");
    reveal_strlit("section");
    reveal_strlit("main");
    reveal_strlit("article");
    reveal_strlit("aside");
    reveal_strlit("header");
    reveal_strlit("footer");
    reveal_strlit("nav");
    reveal_strlit("figure");
    reveal_strlit("figcaption");
    reveal_strlit("details");
    reveal_strlit("summary");
    reveal_strlit("h");
    reveal_strlit("q");
    reveal_strlit("code");
    reveal_strlit("cta");
    reveal_strlit("image");
    reveal_strlit("note");
    reveal_strlit("embed");
    reveal_strlit("sep");
    reveal_strlit("type");
    reveal_strlit("text");
    reveal_strlit("attribution");
    reveal_strlit("language");
    reveal_strlit("href");
    reveal_strlit("alt");
    reveal_strlit("src");
    reveal_strlit("level");
    reveal_strlit("description");
    reveal_strlit("v");
    reveal_strlit("attr");
    reveal_strlit("lang");
}

// ── Search ──

/// The text members of a block that a search looks into.
pub open spec fn searched_member(name: Seq<char>) -> bool {
    name == "type"@ || name == "text"@ || name == "alt"@ || name == "attribution"@ || name == "href"@ || name
        == "src"@ || name == "description"@
}

/// A block matches a query where one of its searched text members holds the
/// query in its lowercase form.
pub proof fn law_block_matches_on_member(m: Map<Seq<char>, JsonModel>, name: Seq<char>, s: Seq<char>, q: Seq<char>)
    requires
        searched_member(name),
        m.contains_key(name),
        m[name] == JsonModel::Str(s),
        seq_contains(lowercase_of(s), q),
    ensures
        block_hit(JsonModel::Object(m), q),
{
    let b = JsonModel::Object(m);
    assert(crate::json::member_str(b, name) == Some(s));
    assert(crate::crawl::text_hit(s, q));
    assert(crate::crawl::member_hit(b, name, q));
}

/// A block matches a query where one of its list items is a text holding the
/// query in its lowercase form.
pub proof fn law_block_matches_on_list_item(
    m: Map<Seq<char>, JsonModel>,
    items: Seq<JsonModel>,
    i: int,
    s: Seq<char>,
    q: Seq<char>,
)
    requires
        m.contains_key("items"@),
        m["items"@] == JsonModel::Array(items),
        0 <= i < items.len(),
        items[i] == JsonModel::Str(s),
        seq_contains(lowercase_of(s), q),
    ensures
        block_hit(JsonModel::Object(m), q),
{
    let b = JsonModel::Object(m);
    assert(crate::crawl::member_array(b, "items"@) == items);
    assert(crate::crawl::text_hit(s, q));
    assert(crate::crawl::item_hit(crate::crawl::member_array(b, "items"@)[i], q));
}

/// A block matches a query where one of its table headers holds the query in
/// its lowercase form.
pub proof fn law_block_matches_on_header(
    m: Map<Seq<char>, JsonModel>,
    headers: Seq<JsonModel>,
    i: int,
    s: Seq<char>,
    q: Seq<char>,
)
    requires
        m.contains_key("headers"@),
        m["headers"@] == JsonModel::Array(headers),
        0 <= i < headers.len(),
        headers[i] == JsonModel::Str(s),
        seq_contains(lowercase_of(s), q),
    ensures
        block_hit(JsonModel::Object(m), q),
{
    let b = JsonModel::Object(m);
    assert(crate::crawl::member_array(b, "headers"@) == headers);
    assert(crate::crawl::text_hit(s, q));
    assert(crate::crawl::str_hit(crate::crawl::member_array(b, "headers"@)[i], q));
}

/// A block matches a query where one of its table cells holds the query in
/// its lowercase form.
pub proof fn law_block_matches_on_cell(
    m: Map<Seq<char>, JsonModel>,
    rows: Seq<JsonModel>,
    r: int,
    cells: Seq<JsonModel>,
    c: int,
    s: Seq<char>,
    q: Seq<char>,
)
    requires
        m.contains_key("rows"@),
        m["rows"@] == JsonModel::Array(rows),
        0 <= r < rows.len(),
        rows[r] == JsonModel::Array(cells),
        0 <= c < cells.len(),
        cells[c] == JsonModel::Str(s),
        seq_contains(lowercase_of(s), q),
    ensures
        block_hit(JsonModel::Object(m), q),
{
    let b = JsonModel::Object(m);
    assert(crate::crawl::member_array(b, "rows"@) == rows);
    assert(crate::crawl::text_hit(s, q));
    assert(rows[r]->Array_0 == cells);
    assert(crate::crawl::str_hit(rows[r]->Array_0[c], q));
    assert(crate::crawl::row_hit(rows[r], q));
    assert(crate::crawl::row_hit(crate::crawl::member_array(b, "rows"@)[r], q));
}

/// A value that is no object matches no query.
pub proof fn law_non_object_matches_nothing(block: JsonModel, q: Seq<char>)
    requires
        !(block is Object),
    ensures
        !block_hit(block, q),
{
}

// ── HTML extraction ──

/// The container elements, whose children the extraction walks into.
pub open spec fn container_name(name: Seq<char>) -> bool {
    name == "div"@ || name == "section"@ || name == "main"@ || name == "article"@ || name == "aside"@ || name
        == "header"@ || name == "footer"@ || name == "nav"@ || name == "figure"@ || name == "figcaption"@
        || name == "details"@ || name == "summary"@
}

/// A container element is walked into: what the extraction collects from
/// `<section>X</section>` (or any other container) is what it collects from
/// X, alone or as the only node of a list.
pub proof fn law_containers_are_walked_into(
    ns: Seq<char>,
    name: Seq<char>,
    attrs: AttrMap,
    children: Seq<HtmlModel>,
    acc: Collected,
)
    requires
        container_name(name),
    ensures
        extract_child(HtmlModel::Element { ns, name, attrs, children }, acc) == extract_children(children, acc),
        extract_children(seq![HtmlModel::Element { ns, name, attrs, children }], acc) == extract_children(
            children,
            acc,
        ),
{
    lemma_words();
    assert(name.len() >= 3);
    assert(name[0] == 'd' || name[0] == 's' || name[0] == 'm' || name[0] == 'a' || name[0] == 'h' || name[0] == 'f'
        || name[0] == 'n');
    let c = HtmlModel::Element { ns, name, attrs, children };
    assert(crate::page::heading_level(name) is None);
    assert(name != "p"@ && name != "ul"@ && name != "ol"@ && name != "blockquote"@ && name != "pre"@);
    assert(name != "table"@ && name != "img"@ && name != "hr"@ && name != "dl"@);
    assert(crate::page::is_container(name));
    assert(extract_child(c, acc) == extract_children(children, acc));
    let one = seq![c];
    assert(one.subrange(1, one.len() as int) =~= Seq::<HtmlModel>::empty());
    assert(one[0] == c);
    assert(extract_children(one, acc) == extract_children(one.subrange(1, 1), extract_child(c, acc)));
}

// ── Depth hints ──

/// The entry that gives a block's depth hint.
pub open spec fn depth_entry(d: int) -> (CborModel, CborModel) {
    (CborModel::Text("_l"@), CborModel::Integer(d))
}

/// An enriched block is a map holding the entry `_l` with the value `d`.
pub open spec fn carries_depth(block: CborModel, d: int) -> bool {
    &&& block is Mapping
    &&& exists|k: int| #![trigger block->Mapping_0[k]] 0 <= k < block->Mapping_0.len() && block->Mapping_0[k] == depth_entry(d)
}

proof fn lemma_carries_depth(out: Seq<(CborModel, CborModel)>, k: int, d: int)
    requires
        0 <= k < out.len(),
        out[k] == depth_entry(d),
    ensures
        carries_depth(CborModel::Mapping(out), d),
{
    let b = CborModel::Mapping(out);
    assert(b->Mapping_0[k] == depth_entry(d));
}

/// The last entry given to the deterministic arrangement is among its entries.
proof fn lemma_last_entry_kept(input: Seq<(CborModel, CborModel)>)
    requires
        input.len() > 0,
    ensures
        exists|k: int| 0 <= k < canonical_entries(input).len() && canonical_entries(input)[k] == input.last(),
{
    lemma_arrangement_exists(input);
    let out = canonical_entries(input);
    let perm = choose|perm: Seq<int>| canonical_arrangement(input, out, perm);
    assert(hits(perm, input.len() - 1));
    let k = choose|k: int| 0 <= k < perm.len() && perm[k] == input.len() - 1;
    assert(out[k] == input[input.len() - 1]);
}

/// The depth hint of a heading: level 1 is identity (0), level 2 essential
/// (1), any other level detail (2).
pub proof fn law_heading_depth(entries: Seq<(CborModel, CborModel)>, n: int)
    requires
        first_with_key(entries, "t"@) == Some(CborModel::Text("h"@)),
        first_with_key(entries, "l"@) == Some(CborModel::Integer(n)),
        0 <= n <= u64::MAX,
    ensures
        carries_depth(enriched(CborModel::Mapping(entries)), if n == 1 { 0 } else if n == 2 { 1 } else { 2 }),
{
    lemma_words();
    let (ty, value, level) = crate::describe::block_fields(entries);
    assert(ty == "h"@);
    assert(level == n);
    let d = crate::describe::describe_text(entries, ty, value, level);
    let with_d = if d.len() > 0 {
        entries.push((CborModel::Text("_describe"@), CborModel::Text(d)))
    } else {
        entries
    };
    let input = with_d.push((CborModel::Text("_l"@), CborModel::Integer(crate::describe::depth_level(ty, level) as int)));
    lemma_last_entry_kept(input);
    let expected: int = if n == 1 { 0 } else if n == 2 { 1 } else { 2 };
    assert(crate::describe::depth_level(ty, level) as int == expected);
    assert(enriched(CborModel::Mapping(entries)) == CborModel::Mapping(canonical_entries(input)));
    let out = canonical_entries(input);
    let k = choose|k: int| 0 <= k < out.len() && out[k] == input.last();
    assert(out[k] == depth_entry(expected));
    lemma_carries_depth(out, k, expected);
}

/// The depth hint of a block of any other type: tables and calls to action
/// are essential (1); quotes, code and definition lists complete (3); images,
/// separators and embeds enrichment (4); paragraphs, lists and any other type
/// detail (2).
pub proof fn law_block_depth(entries: Seq<(CborModel, CborModel)>, ty: Seq<char>)
    requires
        first_with_key(entries, "t"@) == Some(CborModel::Text(ty)),
        ty != "h"@,
    ensures
        carries_depth(
            enriched(CborModel::Mapping(entries)),
            if ty == "table"@ || ty == "cta"@ {
                1
            } else if ty == "q"@ || ty == "code"@ || ty == "dl"@ {
                3
            } else if ty == "img"@ || ty == "sep"@ || ty == "embed"@ {
                4
            } else {
                2
            },
        ),
{
    lemma_words();
    let (t, value, level) = crate::describe::block_fields(entries);
    assert(t == ty);
    let d = crate::describe::describe_text(entries, t, value, level);
    let with_d = if d.len() > 0 {
        entries.push((CborModel::Text("_describe"@), CborModel::Text(d)))
    } else {
        entries
    };
    let input = with_d.push((CborModel::Text("_l"@), CborModel::Integer(crate::describe::depth_level(t, level) as int)));
    lemma_last_entry_kept(input);
    let expected: int = if ty == "table"@ || ty == "cta"@ {
        1
    } else if ty == "q"@ || ty == "code"@ || ty == "dl"@ {
        3
    } else if ty == "img"@ || ty == "sep"@ || ty == "embed"@ {
        4
    } else {
        2
    };
    assert(crate::describe::depth_level(t, level) as int == expected);
    assert(enriched(CborModel::Mapping(entries)) == CborModel::Mapping(canonical_entries(input)));
    let out = canonical_entries(input);
    let k = choose|k: int| 0 <= k < out.len() && out[k] == input.last();
    assert(out[k] == depth_entry(expected));
    lemma_carries_depth(out, k, expected);
}

// ── JSON form of a block ──

/// The JSON member a block of type `ty` fills from the text under a CBOR
/// key: its value ("v") as "text" for headings, paragraphs, quotes, code,
/// calls to action and notes; "attr" as "attribution" for quotes; "lang" as
/// "language" for code; "href" for calls to action; "alt" and "src" for
/// images; "level" for notes; "src" and "description" for embeds.
pub open spec fn text_source(ty: Seq<char>, member: Seq<char>) -> Option<Seq<char>> {
    if member == "text"@ && (ty == "h"@ || ty == "p"@ || ty == "q"@ || ty == "code"@ || ty == "cta"@ || ty
        == "note"@) {
        Some("v"@)
    } else if member == "attribution"@ && ty == "q"@ {
        Some("attr"@)
    } else if member == "language"@ && ty == "code"@ {
        Some("lang"@)
    } else if member == "href"@ && ty == "cta"@ {
        Some("href"@)
    } else if (member == "alt"@ || member == "src"@) && (ty == "img"@ || ty == "image"@) {
        Some(member)
    } else if member == "level"@ && ty == "note"@ {
        Some("level"@)
    } else if (member == "src"@ || member == "description"@) && ty == "embed"@ {
        Some(member)
    } else {
        None
    }
}

/// The JSON form of a map block keeps its type, and fills each member its
/// type carries with the text found under that member's CBOR key: a call to
/// action keeps its text and its link target, an image its alt text and
/// source, and so on (`text_source`).
pub proof fn law_block_json_carries_texts(
    entries: Seq<(CborModel, CborModel)>,
    ty: Seq<char>,
    member: Seq<char>,
    key: Seq<char>,
    s: Seq<char>,
)
    requires
        text_member(entries, "t"@) == Some(ty),
        text_source(ty, member) == Some(key),
        text_member(entries, key) == Some(s),
    ensures
        block_json(CborModel::Mapping(entries)) matches JsonModel::Object(m) && m.contains_key("type"@) && m["type"@]
            == JsonModel::Str(ty) && m.contains_key(member) && m[member] == JsonModel::Str(s),
{
    lemma_words();
}

// ── Plain-text lines ──

/// The plain-text lines of a paragraph are its text, alone.
pub proof fn law_paragraph_lines(m: Map<Seq<char>, JsonModel>, text: Seq<char>)
    requires
        m.contains_key("type"@),
        m["type"@] == JsonModel::Str("p"@),
        m.contains_key("text"@),
        m["text"@] == JsonModel::Str(text),
    ensures
        block_lines(JsonModel::Object(m)) == seq![text],
{
    lemma_words();
    let b = JsonModel::Object(m);
    assert(crate::json::member_str(b, "type"@) == Some("p"@));
    assert(crate::json::member_str(b, "text"@) == Some(text));
}

/// A quote is shown as "  > " and its text, then, where it names one,
/// "    — " and its attribution.
pub proof fn law_quote_lines(m: Map<Seq<char>, JsonModel>, text: Seq<char>, attribution: Seq<char>)
    requires
        m.contains_key("type"@),
        m["type"@] == JsonModel::Str("q"@),
        m.contains_key("text"@),
        m["text"@] == JsonModel::Str(text),
        m.contains_key("attribution"@),
        m["attribution"@] == JsonModel::Str(attribution),
        attribution.len() > 0,
    ensures
        block_lines(JsonModel::Object(m)) == seq!["  > "@ + text, "    — "@ + attribution],
{
    lemma_words();
}

/// A code block is shown between two fences, the first naming its language.
pub proof fn law_code_lines(m: Map<Seq<char>, JsonModel>, text: Seq<char>, language: Seq<char>)
    requires
        m.contains_key("type"@),
        m["type"@] == JsonModel::Str("code"@),
        m.contains_key("text"@),
        m["text"@] == JsonModel::Str(text),
        m.contains_key("language"@),
        m["language"@] == JsonModel::Str(language),
    ensures
        block_lines(JsonModel::Object(m)) == seq!["```"@ + language, text, "```"@],
{
    lemma_words();
}

/// A heading of level `l` (1 to 6) is shown after an empty line as `l`
/// hashes, a space and its text.
pub proof fn law_heading_lines(m: Map<Seq<char>, JsonModel>, text: Seq<char>, l: int)
    requires
        m.contains_key("type"@),
        m["type"@] == JsonModel::Str("h"@),
        m.contains_key("text"@),
        m["text"@] == JsonModel::Str(text),
        m.contains_key("level"@),
        m["level"@] == JsonModel::Int(l),
        1 <= l <= 6,
    ensures
        block_lines(JsonModel::Object(m)) == seq![Seq::<char>::empty(), crate::render::repeat_char('#', l as nat) + " "@ + text],
{
    lemma_words();
    assert(crate::render::u64_member(JsonModel::Object(m), "level"@) == Some(l as u64));
    assert(((l as u64) as usize) as nat == l as nat);
}

/// A bulleted list shows one line per item, in order: "  • " and the item's
/// text.
pub proof fn law_bullet_lines(m: Map<Seq<char>, JsonModel>, items: Seq<JsonModel>, i: int, item: Seq<char>)
    requires
        m.contains_key("type"@),
        m["type"@] == JsonModel::Str("ul"@),
        m.contains_key("items"@),
        m["items"@] == JsonModel::Array(items),
        0 <= i < items.len(),
        items[i] == JsonModel::Str(item),
    ensures
        block_lines(JsonModel::Object(m)).len() == items.len(),
        block_lines(JsonModel::Object(m))[i] == "  • "@ + item,
{
    lemma_words();
}

/// A numbered list shows one line per item, in order: its number from 1, a
/// dot and the item's text.
pub proof fn law_numbered_lines(m: Map<Seq<char>, JsonModel>, items: Seq<JsonModel>, i: int, item: Seq<char>)
    requires
        m.contains_key("type"@),
        m["type"@] == JsonModel::Str("ol"@),
        m.contains_key("items"@),
        m["items"@] == JsonModel::Array(items),
        0 <= i < items.len(),
        items[i] == JsonModel::Str(item),
    ensures
        block_lines(JsonModel::Object(m)).len() == items.len(),
        block_lines(JsonModel::Object(m))[i] == "  "@ + crate::text::decimal((i + 1) as nat) + ". "@ + item,
{
    lemma_words();
}

/// A call to action is shown as its text in brackets, an arrow and its link
/// target.
pub proof fn law_call_to_action_lines(m: Map<Seq<char>, JsonModel>, text: Seq<char>, href: Seq<char>)
    requires
        m.contains_key("type"@),
        m["type"@] == JsonModel::Str("cta"@),
        m.contains_key("text"@),
        m["text"@] == JsonModel::Str(text),
        m.contains_key("href"@),
        m["href"@] == JsonModel::Str(href),
    ensures
        block_lines(JsonModel::Object(m)) == seq!["["@ + text + "] → "@ + href],
{
    lemma_words();
}

/// A separator is shown as one line of three dashes.
pub proof fn law_separator_lines(m: Map<Seq<char>, JsonModel>)
    requires
        m.contains_key("type"@),
        m["type"@] == JsonModel::Str("sep"@),
    ensures
        block_lines(JsonModel::Object(m)) == seq!["---"@],
{
    lemma_words();
}

} // verus!
