//! Extracting a page's content from its HTML tree: the content blocks, the
//! links, and the page's title, description, language alternates and JSON-LD.
use vstd::prelude::*;
use crate::value::{CborValue, CborModel, models_of, lemma_models_of, t, u, arr, model_wf};
use crate::html::{
    HtmlNode, HtmlModel, children_of, is_element_named, element_text, select_in, attr_of, nodes_model,
    lemma_nodes_model, select, attr_value, text_trimmed, is_named,
};
use crate::site::{tx, cmap_of, cmap, push_entry, entries_wf, texts_array};
use crate::text::{seq_starts_with, seq_contains, str_starts_with, str_contains, str_eq, chars_of, string_of_range};

verus! {

// ── The blocks ──

/// A block with a kind and a text value.
pub open spec fn text_block(kind: Seq<char>, text: Seq<char>) -> CborModel {
    cmap_of(seq![(tx("t"@), tx(kind)), (tx("v"@), tx(text))])
}

/// A heading block.
pub open spec fn heading_block(level: int, text: Seq<char>) -> CborModel {
    cmap_of(seq![(tx("l"@), CborModel::Integer(level)), (tx("t"@), tx("h"@)), (tx("v"@), tx(text))])
}

/// A list block of the given kind.
pub open spec fn list_block(kind: Seq<char>, items: Seq<CborModel>) -> CborModel {
    cmap_of(seq![(tx("t"@), tx(kind)), (tx("v"@), CborModel::Array(items))])
}

/// The level of a heading element's name, for `h1` to `h6`.
pub open spec fn heading_level(name: Seq<char>) -> Option<int> {
    if name == "h1"@ {
        Some(1)
    } else if name == "h2"@ {
        Some(2)
    } else if name == "h3"@ {
        Some(3)
    } else if name == "h4"@ {
        Some(4)
    } else if name == "h5"@ {
        Some(5)
    } else if name == "h6"@ {
        Some(6)
    } else {
        None
    }
}

/// The elements whose children the extraction walks into.
pub open spec fn is_container(name: Seq<char>) -> bool {
    name == "div"@ || name == "section"@ || name == "main"@ || name == "article"@ || name == "aside"@ || name
        == "header"@ || name == "footer"@ || name == "nav"@ || name == "figure"@ || name == "figcaption"@
        || name == "details"@ || name == "summary"@
}

/// What the extraction has collected: content blocks, links within the site
/// (path, text) and links elsewhere (URL, text).
pub struct Collected {
    pub blocks: Seq<CborModel>,
    pub internal: Seq<(Seq<char>, Seq<char>)>,
    pub external: Seq<(Seq<char>, Seq<char>)>,
}

/// The extraction adds a block.
pub open spec fn with_block(acc: Collected, b: CborModel) -> Collected {
    Collected { blocks: acc.blocks.push(b), ..acc }
}

/// A link goes elsewhere when its address starts with `http`, within the site
/// when it starts with `/`; other links are left out.
pub open spec fn with_link(acc: Collected, href: Seq<char>, text: Seq<char>) -> Collected {
    if seq_starts_with(href, "http"@) {
        Collected { external: acc.external.push((href, text)), ..acc }
    } else if seq_starts_with(href, "/"@) {
        Collected { internal: acc.internal.push((href, text)), ..acc }
    } else {
        acc
    }
}

/// The links of a paragraph: each of its anchors with an address, in order.
pub open spec fn paragraph_links(anchors: Seq<HtmlModel>, acc: Collected) -> Collected
    decreases anchors.len(),
{
    if anchors.len() == 0 {
        acc
    } else {
        let before = paragraph_links(anchors.drop_last(), acc);
        match attr_of(anchors.last(), "href"@) {
            Some(href) => with_link(before, href, element_text(anchors.last())),
            None => before,
        }
    }
}

/// The items of a list: the texts of its `li` elements that are not empty.
pub open spec fn list_items_of(items: Seq<HtmlModel>) -> Seq<CborModel>
    decreases items.len(),
{
    if items.len() == 0 {
        Seq::empty()
    } else {
        let before = list_items_of(items.drop_last());
        let text = element_text(items.last());
        if text.len() > 0 { before.push(CborModel::Text(text)) } else { before }
    }
}

/// The code block of a `pre` element: the text of its first `code` element
/// (else its own), with the language named by a `language-` class.
pub open spec fn code_block(pre: HtmlModel) -> Option<CborModel> {
    let codes = select_in(pre, "code"@);
    let text = if codes.len() > 0 { element_text(codes[0]) } else { element_text(pre) };
    if text.len() == 0 {
        None
    } else {
        let base = seq![(tx("t"@), tx("code"@)), (tx("v"@), tx(text))];
        let entries = if codes.len() > 0 && attr_of(codes[0], "class"@) is Some && seq_starts_with(
            attr_of(codes[0], "class"@)->0,
            "language-"@,
        ) {
            base.push((tx("lang"@), tx(attr_of(codes[0], "class"@)->0.skip(9))))
        } else {
            base
        };
        Some(cmap_of(entries))
    }
}

/// The texts of elements, as text values.
pub open spec fn text_values(s: Seq<HtmlModel>) -> Seq<CborModel> {
    s.map_values(|e: HtmlModel| CborModel::Text(element_text(e)))
}

/// The rows of a table: for each `tr` with a `td` below it, the texts of its
/// `td` elements.
pub open spec fn table_rows(trs: Seq<HtmlModel>) -> Seq<CborModel>
    decreases trs.len(),
{
    if trs.len() == 0 {
        Seq::empty()
    } else {
        let before = table_rows(trs.drop_last());
        let tds = select_in(trs.last(), "td"@);
        if tds.len() > 0 { before.push(CborModel::Array(text_values(tds))) } else { before }
    }
}

/// The block of a table, where it has headers or rows.
pub open spec fn table_block(table: HtmlModel) -> Option<CborModel> {
    let headers = text_values(select_in(table, "th"@));
    let rows = table_rows(select_in(table, "tr"@));
    if headers.len() > 0 || rows.len() > 0 {
        Some(
            cmap_of(
                seq![
                    (tx("headers"@), CborModel::Array(headers)),
                    (tx("rows"@), CborModel::Array(rows)),
                    (tx("t"@), tx("table"@)),
                ],
            ),
        )
    } else {
        None
    }
}

/// The block of an image with a source; its text is its `alt` ("Image" where
/// it has none).
pub open spec fn image_block(img: HtmlModel) -> Option<CborModel> {
    let alt = match attr_of(img, "alt"@) {
        Some(a) => a,
        None => "Image"@,
    };
    let src = match attr_of(img, "src"@) {
        Some(s) => s,
        None => Seq::empty(),
    };
    if src.len() > 0 {
        Some(cmap_of(seq![(tx("alt"@), tx(alt)), (tx("src"@), tx(src)), (tx("t"@), tx("img"@))]))
    } else {
        None
    }
}

/// The definitions of a definition list, walking its children: a `dt` sets
/// the term, a `dd` gives a definition of the current term (where both are
/// not empty) and clears it.
pub open spec fn definitions(f: Seq<HtmlModel>, term: Seq<char>) -> Seq<CborModel>
    decreases f.len(),
{
    if f.len() == 0 {
        Seq::empty()
    } else {
        let rest = f.subrange(1, f.len() as int);
        if is_element_named(f[0], "dt"@) {
            definitions(rest, element_text(f[0]))
        } else if is_element_named(f[0], "dd"@) {
            let def = element_text(f[0]);
            let own: Seq<CborModel> = if term.len() > 0 && def.len() > 0 {
                seq![cmap_of(seq![(tx("def"@), tx(def)), (tx("term"@), tx(term))])]
            } else {
                Seq::empty()
            };
            own + definitions(rest, Seq::empty())
        } else {
            definitions(rest, term)
        }
    }
}

/// A standalone anchor: a call to action where its class names a button,
/// else a link.
pub open spec fn anchor(a: HtmlModel, acc: Collected) -> Collected {
    let href = match attr_of(a, "href"@) {
        Some(h) => h,
        None => Seq::empty(),
    };
    let class = match attr_of(a, "class"@) {
        Some(c) => c,
        None => Seq::empty(),
    };
    let text = element_text(a);
    if text.len() > 0 && href.len() > 0 {
        if seq_contains(class, "btn"@) || seq_contains(class, "cta"@) || seq_contains(class, "button"@) {
            with_block(acc, cmap_of(seq![(tx("href"@), tx(href)), (tx("t"@), tx("cta"@)), (tx("v"@), tx(text))]))
        } else {
            with_link(acc, href, text)
        }
    } else {
        acc
    }
}

/// What the extraction collects from one child of a container.
pub open spec fn extract_child(c: HtmlModel, acc: Collected) -> Collected
    decreases c,
{
    match c {
        HtmlModel::Element { name, children, .. } => {
            let text = element_text(c);
            if heading_level(name) is Some {
                if text.len() > 0 { with_block(acc, heading_block(heading_level(name)->0, text)) } else { acc }
            } else if name == "p"@ {
                let a1 = if text.len() > 0 { with_block(acc, text_block("p"@, text)) } else { acc };
                paragraph_links(select_in(c, "a"@), a1)
            } else if name == "ul"@ || name == "ol"@ {
                let items = list_items_of(select_in(c, "li"@));
                if items.len() > 0 { with_block(acc, list_block(name, items)) } else { acc }
            } else if name == "blockquote"@ {
                if text.len() > 0 { with_block(acc, text_block("q"@, text)) } else { acc }
            } else if name == "pre"@ {
                match code_block(c) {
                    Some(b) => with_block(acc, b),
                    None => acc,
                }
            } else if name == "table"@ {
                match table_block(c) {
                    Some(b) => with_block(acc, b),
                    None => acc,
                }
            } else if name == "img"@ {
                match image_block(c) {
                    Some(b) => with_block(acc, b),
                    None => acc,
                }
            } else if name == "hr"@ {
                with_block(acc, cmap_of(seq![(tx("t"@), tx("sep"@))]))
            } else if name == "dl"@ {
                let defs = definitions(children, Seq::empty());
                if defs.len() > 0 { with_block(acc, list_block("dl"@, defs)) } else { acc }
            } else if is_container(name) {
                extract_children(children, acc)
            } else if name == "a"@ {
                anchor(c, acc)
            } else {
                acc
            }
        },
        _ => acc,
    }
}

/// What the extraction collects from the children of a container, in order.
pub open spec fn extract_children(f: Seq<HtmlModel>, acc: Collected) -> Collected
    decreases f,
{
    if f.len() == 0 {
        acc
    } else {
        extract_children(f.subrange(1, f.len() as int), extract_child(f[0], acc))
    }
}

// ── Collecting ──

/// The texts of a list of pairs of strings.
pub open spec fn pairs_view(s: Seq<(String, String)>) -> Seq<(Seq<char>, Seq<char>)> {
    s.map_values(|p: (String, String)| (p.0@, p.1@))
}

/// All the values are well-formed.
pub open spec fn values_wf(s: Seq<CborValue>) -> bool {
    forall|i: int| 0 <= i < s.len() ==> (#[trigger] s[i]).wf()
}

/// What has been collected so far.
pub struct Extraction {
    pub blocks: Vec<CborValue>,
    pub internal_links: Vec<(String, String)>,
    pub external_links: Vec<(String, String)>,
}

impl View for Extraction {
    type V = Collected;

    open spec fn view(&self) -> Collected {
        Collected {
            blocks: models_of(self.blocks@),
            internal: pairs_view(self.internal_links@),
            external: pairs_view(self.external_links@),
        }
    }
}

fn push_block(out: &mut Extraction, b: CborValue)
    requires
        values_wf(old(out).blocks@),
        b.wf(),
    ensures
        final(out)@ == with_block(old(out)@, b@),
        values_wf(final(out).blocks@),
{
    let ghost before = out.blocks@;
    out.blocks.push(b);
    assert(out.blocks@.drop_last() =~= before);
}

fn push_link(out: &mut Extraction, href: String, text: String)
    ensures
        final(out)@ == with_link(old(out)@, href@, text@),
        final(out).blocks@ == old(out).blocks@,
{
    if str_starts_with(href.as_str(), "http") {
        let ghost before = out.external_links@;
        out.external_links.push((href, text));
        assert(pairs_view(out.external_links@) =~= pairs_view(before).push((href@, text@)));
    } else if str_starts_with(href.as_str(), "/") {
        let ghost before = out.internal_links@;
        out.internal_links.push((href, text));
        assert(pairs_view(out.internal_links@) =~= pairs_view(before).push((href@, text@)));
    }
}

fn text_block_value(kind: &str, text: &str) -> (r: CborValue)
    ensures
        r@ == text_block(kind@, text@),
        r.wf(),
{
    let mut e: Vec<(CborValue, CborValue)> = Vec::new();
    push_entry(&mut e, t("t"), t(kind));
    push_entry(&mut e, t("v"), t(text));
    proof {
        crate::value::lemma_entry_models_of(e@);
        assert(crate::value::entry_models_of(e@) =~= seq![(tx("t"@), tx(kind@)), (tx("v"@), tx(text@))]);
    }
    cmap(e)
}

fn heading_level_of(name: &str) -> (r: Option<u64>)
    ensures
        match r {
            Some(l) => heading_level(name@) == Some(l as int),
            None => heading_level(name@) is None,
        },
{
    if str_eq(name, "h1") {
        Some(1)
    } else if str_eq(name, "h2") {
        Some(2)
    } else if str_eq(name, "h3") {
        Some(3)
    } else if str_eq(name, "h4") {
        Some(4)
    } else if str_eq(name, "h5") {
        Some(5)
    } else if str_eq(name, "h6") {
        Some(6)
    } else {
        None
    }
}

fn is_container_name(name: &str) -> (r: bool)
    ensures
        r == is_container(name@),
{
    str_eq(name, "div") || str_eq(name, "section") || str_eq(name, "main") || str_eq(name, "article") || str_eq(
        name,
        "aside",
    ) || str_eq(name, "header") || str_eq(name, "footer") || str_eq(name, "nav") || str_eq(name, "figure")
        || str_eq(name, "figcaption") || str_eq(name, "details") || str_eq(name, "summary")
}

/// The texts of elements, as text values.
fn text_values_of(v: &Vec<HtmlNode>) -> (r: Vec<CborValue>)
    ensures
        models_of(r@) == text_values(nodes_model(v@)),
        values_wf(r@),
{
    proof {
        lemma_nodes_model(v@);
    }
    let mut r: Vec<CborValue> = Vec::new();
    let mut i: usize = 0;
    while i < v.len()
        invariant
            i <= v.len(),
            nodes_model(v@).len() == v.len(),
            forall|j: int| 0 <= j < v.len() ==> #[trigger] nodes_model(v@)[j] == v@[j]@,
            r.len() == i,
            values_wf(r@),
            forall|j: int| 0 <= j < i ==> (#[trigger] r@[j])@ == CborModel::Text(element_text(v@[j]@)),
        decreases v.len() - i,
    {
        let s = text_trimmed(&v[i]);
        r.push(t(s.as_str()));
        i = i + 1;
    }
    proof {
        lemma_models_of(r@);
        assert(models_of(r@) =~= text_values(nodes_model(v@)));
    }
    r
}

/// The links of a paragraph's anchors.
fn collect_paragraph_links(p: &HtmlNode, out: &mut Extraction)
    ensures
        final(out)@ == paragraph_links(select_in(p@, "a"@), old(out)@),
        final(out).blocks@ == old(out).blocks@,
{
    let anchors = select(p, "a");
    let ghost m = nodes_model(anchors@);
    let ghost start = out@;
    proof {
        lemma_nodes_model(anchors@);
        assert(m.take(0) =~= Seq::<HtmlModel>::empty());
    }
    let mut i: usize = 0;
    while i < anchors.len()
        invariant
            i <= anchors.len(),
            m == nodes_model(anchors@),
            m.len() == anchors.len(),
            forall|j: int| 0 <= j < anchors.len() ==> #[trigger] m[j] == anchors@[j]@,
            out@ == paragraph_links(m.take(i as int), start),
            out.blocks@ == old(out).blocks@,
        decreases anchors.len() - i,
    {
        assert(m.take(i + 1).drop_last() =~= m.take(i as int));
        match attr_value(&anchors[i], "href") {
            Some(href) => {
                let text = text_trimmed(&anchors[i]);
                push_link(out, href, text);
            },
            None => {},
        }
        i = i + 1;
    }
    assert(m.take(anchors.len() as int) =~= m);
}

/// The items of a list.
fn list_items_values(list: &HtmlNode) -> (r: Vec<CborValue>)
    ensures
        models_of(r@) == list_items_of(select_in(list@, "li"@)),
        values_wf(r@),
{
    let lis = select(list, "li");
    let ghost m = nodes_model(lis@);
    proof {
        lemma_nodes_model(lis@);
        assert(m.take(0) =~= Seq::<HtmlModel>::empty());
    }
    let mut r: Vec<CborValue> = Vec::new();
    let mut i: usize = 0;
    while i < lis.len()
        invariant
            i <= lis.len(),
            m == nodes_model(lis@),
            m.len() == lis.len(),
            forall|j: int| 0 <= j < lis.len() ==> #[trigger] m[j] == lis@[j]@,
            models_of(r@) == list_items_of(m.take(i as int)),
            values_wf(r@),
        decreases lis.len() - i,
    {
        assert(m.take(i + 1).drop_last() =~= m.take(i as int));
        let text = text_trimmed(&lis[i]);
        if !crate::site::is_empty(&text) {
            let ghost before = r@;
            r.push(t(text.as_str()));
            assert(r@.drop_last() =~= before);
        }
        i = i + 1;
    }
    assert(m.take(lis.len() as int) =~= m);
    r
}

/// The code block of a `pre` element.
fn code_block_value(pre: &HtmlNode) -> (r: Option<CborValue>)
    ensures
        match r {
            Some(b) => code_block(pre@) == Some(b@) && b.wf(),
            None => code_block(pre@) is None,
        },
{
    let codes = select(pre, "code");
    proof {
        lemma_nodes_model(codes@);
    }
    let text = if codes.len() > 0 { text_trimmed(&codes[0]) } else { text_trimmed(pre) };
    if crate::site::is_empty(&text) {
        return None;
    }
    let mut e: Vec<(CborValue, CborValue)> = Vec::new();
    push_entry(&mut e, t("t"), t("code"));
    push_entry(&mut e, t("v"), t(text.as_str()));
    let ghost base = seq![(tx("t"@), tx("code"@)), (tx("v"@), tx(text@))];
    proof {
        crate::value::lemma_entry_models_of(e@);
        assert(crate::value::entry_models_of(e@) =~= base);
    }
    if codes.len() > 0 {
        match attr_value(&codes[0], "class") {
            Some(class) => {
                if str_starts_with(class.as_str(), "language-") {
                    proof {
                        reveal_strlit("language-");
                    }
                    let cs = chars_of(class.as_str());
                    let lang = string_of_range(&cs, 9, cs.len());
                    assert(lang@ =~= class@.skip(9));
                    push_entry(&mut e, t("lang"), t(lang.as_str()));
                }
            },
            None => {},
        }
    }
    proof {
        crate::value::lemma_entry_models_of(e@);
    }
    Some(cmap(e))
}

/// The rows of a table.
fn table_rows_values(table: &HtmlNode) -> (r: Vec<CborValue>)
    ensures
        models_of(r@) == table_rows(select_in(table@, "tr"@)),
        values_wf(r@),
{
    let trs = select(table, "tr");
    let ghost m = nodes_model(trs@);
    proof {
        lemma_nodes_model(trs@);
        assert(m.take(0) =~= Seq::<HtmlModel>::empty());
    }
    let mut r: Vec<CborValue> = Vec::new();
    let mut i: usize = 0;
    while i < trs.len()
        invariant
            i <= trs.len(),
            m == nodes_model(trs@),
            m.len() == trs.len(),
            forall|j: int| 0 <= j < trs.len() ==> #[trigger] m[j] == trs@[j]@,
            models_of(r@) == table_rows(m.take(i as int)),
            values_wf(r@),
        decreases trs.len() - i,
    {
        assert(m.take(i + 1).drop_last() =~= m.take(i as int));
        let tds = select(&trs[i], "td");
        if tds.len() > 0 {
            let cells = text_values_of(&tds);
            proof {
                crate::value::lemma_all_wf(models_of(cells@));
                lemma_models_of(cells@);
            }
            let row = arr(cells);
            let ghost before = r@;
            r.push(row);
            assert(r@.drop_last() =~= before);
        }
        i = i + 1;
    }
    assert(m.take(trs.len() as int) =~= m);
    r
}

/// The block of a table.
fn table_block_value(table: &HtmlNode) -> (r: Option<CborValue>)
    ensures
        match r {
            Some(b) => table_block(table@) == Some(b@) && b.wf(),
            None => table_block(table@) is None,
        },
{
    let ths = select(table, "th");
    let headers = text_values_of(&ths);
    let rows = table_rows_values(table);
    proof {
        lemma_models_of(headers@);
        lemma_models_of(rows@);
    }
    if headers.len() > 0 || rows.len() > 0 {
        let mut e: Vec<(CborValue, CborValue)> = Vec::new();
        push_entry(&mut e, t("headers"), arr(headers));
        push_entry(&mut e, t("rows"), arr(rows));
        push_entry(&mut e, t("t"), t("table"));
        proof {
            crate::value::lemma_entry_models_of(e@);
            assert(crate::value::entry_models_of(e@) =~= seq![
                (tx("headers"@), CborModel::Array(text_values(select_in(table@, "th"@)))),
                (tx("rows"@), CborModel::Array(table_rows(select_in(table@, "tr"@)))),
                (tx("t"@), tx("table"@)),
            ]);
        }
        Some(cmap(e))
    } else {
        None
    }
}

/// The block of an image.
fn image_block_value(img: &HtmlNode) -> (r: Option<CborValue>)
    ensures
        match r {
            Some(b) => image_block(img@) == Some(b@) && b.wf(),
            None => image_block(img@) is None,
        },
{
    let alt = match attr_value(img, "alt") {
        Some(a) => a,
        None => String::from_str("Image"),
    };
    let src = match attr_value(img, "src") {
        Some(s) => s,
        None => String::new(),
    };
    if crate::site::is_empty(&src) {
        return None;
    }
    let mut e: Vec<(CborValue, CborValue)> = Vec::new();
    push_entry(&mut e, t("alt"), t(alt.as_str()));
    push_entry(&mut e, t("src"), t(src.as_str()));
    push_entry(&mut e, t("t"), t("img"));
    proof {
        crate::value::lemma_entry_models_of(e@);
        assert(crate::value::entry_models_of(e@) =~= seq![(tx("alt"@), tx(alt@)), (tx("src"@), tx(src@)), (tx("t"@), tx("img"@))]);
    }
    Some(cmap(e))
}

/// The definitions of a definition list.
fn definitions_values(v: &Vec<HtmlNode>) -> (r: Vec<CborValue>)
    ensures
        models_of(r@) == definitions(nodes_model(v@), Seq::empty()),
        values_wf(r@),
{
    let ghost m = nodes_model(v@);
    proof {
        lemma_nodes_model(v@);
        assert(m.skip(0) =~= m);
    }
    let mut r: Vec<CborValue> = Vec::new();
    let mut term = String::new();
    let mut i: usize = 0;
    while i < v.len()
        invariant
            i <= v.len(),
            m == nodes_model(v@),
            m.len() == v.len(),
            forall|j: int| 0 <= j < v.len() ==> #[trigger] m[j] == v@[j]@,
            models_of(r@) + definitions(m.skip(i as int), term@) == definitions(m, Seq::empty()),
            values_wf(r@),
        decreases v.len() - i,
    {
        assert(m.skip(i as int).subrange(1, m.skip(i as int).len() as int) =~= m.skip(i + 1));
        assert(m.skip(i as int)[0] == m[i as int]);
        if is_named(&v[i], "dt") {
            term = text_trimmed(&v[i]);
        } else if is_named(&v[i], "dd") {
            let def = text_trimmed(&v[i]);
            let ghost before = r@;
            if !crate::site::is_empty(&term) && !crate::site::is_empty(&def) {
                let mut e: Vec<(CborValue, CborValue)> = Vec::new();
                push_entry(&mut e, t("def"), t(def.as_str()));
                push_entry(&mut e, t("term"), t(term.as_str()));
                proof {
                    crate::value::lemma_entry_models_of(e@);
                    assert(crate::value::entry_models_of(e@) =~= seq![(tx("def"@), tx(def@)), (tx("term"@), tx(term@))]);
                }
                let blk = cmap(e);
                r.push(blk);
                assert(r@.drop_last() =~= before);
                assert(models_of(r@) + definitions(m.skip(i + 1), Seq::empty()) =~= models_of(before) + definitions(
                    m.skip(i as int),
                    term@,
                ));
            } else {
                assert(models_of(r@) + definitions(m.skip(i + 1), Seq::empty()) =~= models_of(before) + definitions(
                    m.skip(i as int),
                    term@,
                ));
            }
            term = String::new();
        }
        i = i + 1;
    }
    assert(m.skip(v.len() as int) =~= Seq::<HtmlModel>::empty());
    assert(models_of(r@) =~= models_of(r@) + definitions(m.skip(v.len() as int), term@));
    r
}

/// A standalone anchor.
fn collect_anchor(a: &HtmlNode, out: &mut Extraction)
    requires
        values_wf(old(out).blocks@),
    ensures
        final(out)@ == anchor(a@, old(out)@),
        values_wf(final(out).blocks@),
{
    let href = match attr_value(a, "href") {
        Some(h) => h,
        None => String::new(),
    };
    let class = match attr_value(a, "class") {
        Some(c) => c,
        None => String::new(),
    };
    let text = text_trimmed(a);
    if !crate::site::is_empty(&text) && !crate::site::is_empty(&href) {
        if str_contains(class.as_str(), "btn") || str_contains(class.as_str(), "cta") || str_contains(
            class.as_str(),
            "button",
        ) {
            let mut e: Vec<(CborValue, CborValue)> = Vec::new();
            push_entry(&mut e, t("href"), t(href.as_str()));
            push_entry(&mut e, t("t"), t("cta"));
            push_entry(&mut e, t("v"), t(text.as_str()));
            proof {
                crate::value::lemma_entry_models_of(e@);
                assert(crate::value::entry_models_of(e@) =~= seq![(tx("href"@), tx(href@)), (tx("t"@), tx("cta"@)), (tx("v"@), tx(text@))]);
            }
            push_block(out, cmap(e));
        } else {
            push_link(out, href, text);
        }
    }
}

/// Collects from one child of a container.
fn collect_child(c: &HtmlNode, out: &mut Extraction)
    requires
        values_wf(old(out).blocks@),
    ensures
        final(out)@ == extract_child(c@, old(out)@),
        values_wf(final(out).blocks@),
    decreases c,
{
    match c {
        HtmlNode::Element { name, children, .. } => {
            let text = text_trimmed(c);
            let nm = name.as_str();
            match heading_level_of(nm) {
                Some(level) => {
                    if !crate::site::is_empty(&text) {
                        let mut e: Vec<(CborValue, CborValue)> = Vec::new();
                        push_entry(&mut e, t("l"), u(level));
                        push_entry(&mut e, t("t"), t("h"));
                        push_entry(&mut e, t("v"), t(text.as_str()));
                        proof {
                            crate::value::lemma_entry_models_of(e@);
                            assert(crate::value::entry_models_of(e@) =~= seq![
                                (tx("l"@), CborModel::Integer(level as int)),
                                (tx("t"@), tx("h"@)),
                                (tx("v"@), tx(text@)),
                            ]);
                        }
                        push_block(out, cmap(e));
                    }
                    return;
                },
                None => {},
            }
            if str_eq(nm, "p") {
                if !crate::site::is_empty(&text) {
                    push_block(out, text_block_value("p", text.as_str()));
                }
                collect_paragraph_links(c, out);
            } else if str_eq(nm, "ul") || str_eq(nm, "ol") {
                let items = list_items_values(c);
                if items.len() > 0 {
                    proof {
                        lemma_models_of(items@);
                    }
                    let mut e: Vec<(CborValue, CborValue)> = Vec::new();
                    push_entry(&mut e, t("t"), t(nm));
                    push_entry(&mut e, t("v"), arr(items));
                    proof {
                        crate::value::lemma_entry_models_of(e@);
                        assert(crate::value::entry_models_of(e@) =~= seq![
                            (tx("t"@), tx(name@)),
                            (tx("v"@), CborModel::Array(list_items_of(select_in(c@, "li"@)))),
                        ]);
                    }
                    push_block(out, cmap(e));
                }
            } else if str_eq(nm, "blockquote") {
                if !crate::site::is_empty(&text) {
                    push_block(out, text_block_value("q", text.as_str()));
                }
            } else if str_eq(nm, "pre") {
                match code_block_value(c) {
                    Some(b) => push_block(out, b),
                    None => {},
                }
            } else if str_eq(nm, "table") {
                match table_block_value(c) {
                    Some(b) => push_block(out, b),
                    None => {},
                }
            } else if str_eq(nm, "img") {
                match image_block_value(c) {
                    Some(b) => push_block(out, b),
                    None => {},
                }
            } else if str_eq(nm, "hr") {
                let mut e: Vec<(CborValue, CborValue)> = Vec::new();
                push_entry(&mut e, t("t"), t("sep"));
                proof {
                    crate::value::lemma_entry_models_of(e@);
                    assert(crate::value::entry_models_of(e@) =~= seq![(tx("t"@), tx("sep"@))]);
                }
                push_block(out, cmap(e));
            } else if str_eq(nm, "dl") {
                let defs = definitions_values(children);
                if defs.len() > 0 {
                    proof {
                        lemma_models_of(defs@);
                    }
                    let mut e: Vec<(CborValue, CborValue)> = Vec::new();
                    push_entry(&mut e, t("t"), t("dl"));
                    push_entry(&mut e, t("v"), arr(defs));
                    proof {
                        crate::value::lemma_entry_models_of(e@);
                        assert(crate::value::entry_models_of(e@) =~= seq![
                            (tx("t"@), tx("dl"@)),
                            (tx("v"@), CborModel::Array(definitions(nodes_model(children@), Seq::empty()))),
                        ]);
                    }
                    push_block(out, cmap(e));
                }
            } else if is_container_name(nm) {
                collect_children(children, out);
            } else if str_eq(nm, "a") {
                collect_anchor(c, out);
            }
        },
        _ => {},
    }
}

/// Collects from the children of a container, in order.
fn collect_children(v: &Vec<HtmlNode>, out: &mut Extraction)
    requires
        values_wf(old(out).blocks@),
    ensures
        final(out)@ == extract_children(nodes_model(v@), old(out)@),
        values_wf(final(out).blocks@),
    decreases v,
{
    let ghost m = nodes_model(v@);
    proof {
        lemma_nodes_model(v@);
        assert(m.skip(0) =~= m);
    }
    let mut i: usize = 0;
    while i < v.len()
        invariant
            i <= v.len(),
            m == nodes_model(v@),
            m.len() == v.len(),
            forall|j: int| 0 <= j < v.len() ==> #[trigger] m[j] == v@[j]@,
            extract_children(m, old(out)@) == extract_children(m.skip(i as int), out@),
            values_wf(out.blocks@),
        decreases v.len() - i,
    {
        assert(m.skip(i as int).subrange(1, m.skip(i as int).len() as int) =~= m.skip(i + 1));
        assert(m.skip(i as int)[0] == m[i as int]);
        assert(decreases_to!(v => v@[i as int]));
        collect_child(&v[i], out);
        i = i + 1;
    }
    assert(m.skip(v.len() as int) =~= Seq::<HtmlModel>::empty());
}

/// What the extraction collects, as a spec value.
pub open spec fn collected(
    blocks: Seq<CborValue>,
    internal: Seq<(String, String)>,
    external: Seq<(String, String)>,
) -> Collected {
    Collected { blocks: models_of(blocks), internal: pairs_view(internal), external: pairs_view(external) }
}

/// Walks the children of a container element and collects content blocks
/// (headings, paragraphs, lists, quotes, code, tables, images, separators,
/// definition lists, calls to action) and links, walking into the children
/// of sections and other containers.
pub fn extract_blocks_recursive(
    container: &HtmlNode,
    blocks: &mut Vec<CborValue>,
    internal_links: &mut Vec<(String, String)>,
    external_links: &mut Vec<(String, String)>,
)
    requires
        values_wf(old(blocks)@),
    ensures
        collected(final(blocks)@, final(internal_links)@, final(external_links)@) == extract_children(
            children_of(container@),
            collected(old(blocks)@, old(internal_links)@, old(external_links)@),
        ),
        values_wf(final(blocks)@),
{
    let mut out = Extraction { blocks: Vec::new(), internal_links: Vec::new(), external_links: Vec::new() };
    std::mem::swap(&mut out.blocks, blocks);
    std::mem::swap(&mut out.internal_links, internal_links);
    std::mem::swap(&mut out.external_links, external_links);
    match container {
        HtmlNode::Element { children, .. } => collect_children(children, &mut out),
        HtmlNode::Other { children } => collect_children(children, &mut out),
        HtmlNode::Text(_) => {},
    }
    std::mem::swap(&mut out.blocks, blocks);
    std::mem::swap(&mut out.internal_links, internal_links);
    std::mem::swap(&mut out.external_links, external_links);
}

// ── The page ──

/// The namespace of HTML elements.
pub open spec fn html_ns() -> Seq<char> {
    "http://www.w3.org/1999/xhtml"@
}

/// The namespace of an element.
pub open spec fn ns_of(n: HtmlModel) -> Seq<char> {
    match n {
        HtmlModel::Element { ns, .. } => ns,
        _ => Seq::empty(),
    }
}

/// The code of a character with ASCII capitals made small.
pub open spec fn lower_code(c: char) -> u32 {
    if 'A' <= c && c <= 'Z' {
        ((c as u32) + 32) as u32
    } else {
        c as u32
    }
}

/// Equality of two texts ignoring ASCII case.
pub open spec fn eq_ignore_ascii_case(a: Seq<char>, b: Seq<char>) -> bool {
    a.len() == b.len() && forall|i: int| 0 <= i < a.len() ==> lower_code(#[trigger] a[i]) == lower_code(b[i])
}

/// Whether an element's attribute has the given value, ignoring ASCII case
/// on an HTML element (as selectors compare `rel` and `type`).
pub open spec fn attr_matches_ci(n: HtmlModel, name: Seq<char>, value: Seq<char>) -> bool {
    match attr_of(n, name) {
        Some(v) => if ns_of(n) == html_ns() {
            eq_ignore_ascii_case(v, value)
        } else {
            v == value
        },
        None => false,
    }
}

/// The first of the elements whose `name` is `description`.
pub open spec fn first_description(s: Seq<HtmlModel>) -> Option<HtmlModel>
    decreases s.len(),
{
    if s.len() == 0 {
        None
    } else if attr_of(s[0], "name"@) == Some("description"@) {
        Some(s[0])
    } else {
        first_description(s.subrange(1, s.len() as int))
    }
}

/// Sets the address of a language: in place where the language is there
/// already, else at the end.
pub open spec fn put_alternate(alts: Seq<(Seq<char>, Seq<char>)>, lang: Seq<char>, href: Seq<char>) -> Seq<
    (Seq<char>, Seq<char>),
>
    decreases alts.len(),
{
    if alts.len() == 0 {
        seq![(lang, href)]
    } else if alts[0].0 == lang {
        alts.update(0, (lang, href))
    } else {
        seq![alts[0]] + put_alternate(alts.drop_first(), lang, href)
    }
}

/// The language alternates of the `link` elements: for each with `rel`
/// `alternate`, a `hreflang` other than `x-default` and an `href`, the
/// language's address; a later link for a language replaces an earlier one.
pub open spec fn alternates_from(links: Seq<HtmlModel>) -> Seq<(Seq<char>, Seq<char>)>
    decreases links.len(),
{
    if links.len() == 0 {
        Seq::empty()
    } else {
        let before = alternates_from(links.drop_last());
        let l = links.last();
        if attr_matches_ci(l, "rel"@, "alternate"@) && attr_of(l, "hreflang"@) is Some && attr_of(l, "href"@) is Some
            && attr_of(l, "hreflang"@)->0 != "x-default"@ {
            put_alternate(before, attr_of(l, "hreflang"@)->0, attr_of(l, "href"@)->0)
        } else {
            before
        }
    }
}

/// The texts of the JSON-LD scripts, in document order.
pub open spec fn json_ld_texts(scripts: Seq<HtmlModel>) -> Seq<Seq<char>>
    decreases scripts.len(),
{
    if scripts.len() == 0 {
        Seq::empty()
    } else {
        let before = json_ld_texts(scripts.drop_last());
        if attr_matches_ci(scripts.last(), "type"@, "application/ld+json"@) {
            before.push(element_text(scripts.last()))
        } else {
            before
        }
    }
}

/// The element whose children hold the content: the first `main`, else the
/// first `article`, else the first `body`.
pub open spec fn content_root(doc: HtmlModel) -> Option<HtmlModel> {
    let mains = select_in(doc, "main"@);
    let articles = select_in(doc, "article"@);
    let bodies = select_in(doc, "body"@);
    if mains.len() > 0 {
        Some(mains[0])
    } else if articles.len() > 0 {
        Some(articles[0])
    } else if bodies.len() > 0 {
        Some(bodies[0])
    } else {
        None
    }
}

/// The value of the first entry of a map under a text key.
pub open spec fn entry_under(entries: Seq<(CborModel, CborModel)>, key: Seq<char>) -> Option<CborModel>
    decreases entries.len(),
{
    if entries.len() == 0 {
        None
    } else if entries[0].0 == CborModel::Text(key) {
        Some(entries[0].1)
    } else {
        entry_under(entries.subrange(1, entries.len() as int), key)
    }
}

/// The text of the first heading block.
pub open spec fn heading_title(blocks: Seq<CborModel>) -> Option<Seq<char>>
    decreases blocks.len(),
{
    if blocks.len() == 0 {
        None
    } else {
        let rest = heading_title(blocks.subrange(1, blocks.len() as int));
        match blocks[0] {
            CborModel::Mapping(pairs) => if pairs.contains((tx("t"@), tx("h"@))) {
                match entry_under(pairs, "v"@) {
                    Some(CborModel::Text(x)) => Some(x),
                    _ => rest,
                }
            } else {
                rest
            },
            _ => rest,
        }
    }
}

/// What is read from a page's HTML.
#[derive(Debug)]
pub struct PageContent {
    pub title: String,
    pub description: String,
    pub lang: String,
    pub blocks: Vec<CborValue>,
    pub internal_links: Vec<(String, String)>,
    pub external_links: Vec<(String, String)>,
    /// Versions in other languages: language and address, each language once.
    pub alternates: Vec<(String, String)>,
    /// The texts of the page's JSON-LD scripts, in document order; the first
    /// that parses as JSON is the page's structured data.
    pub json_ld: Vec<String>,
}

/// Mathematical model of what is read from a page.
pub struct PageContentModel {
    pub title: Seq<char>,
    pub description: Seq<char>,
    pub lang: Seq<char>,
    pub blocks: Seq<CborModel>,
    pub internal: Seq<(Seq<char>, Seq<char>)>,
    pub external: Seq<(Seq<char>, Seq<char>)>,
    pub alternates: Seq<(Seq<char>, Seq<char>)>,
    pub json_ld: Seq<Seq<char>>,
}

impl View for PageContent {
    type V = PageContentModel;

    open spec fn view(&self) -> PageContentModel {
        PageContentModel {
            title: self.title@,
            description: self.description@,
            lang: self.lang@,
            blocks: models_of(self.blocks@),
            internal: pairs_view(self.internal_links@),
            external: pairs_view(self.external_links@),
            alternates: pairs_view(self.alternates@),
            json_ld: self.json_ld@.map_values(|s: String| s@),
        }
    }
}

/// Nothing collected yet.
pub open spec fn nothing() -> Collected {
    Collected { blocks: Seq::empty(), internal: Seq::empty(), external: Seq::empty() }
}

/// What a page's document tree holds: its title (that of the first `title`
/// element, else the text of the first heading block), the content of the
/// first `meta` named `description`, the given language, the blocks and
/// links of its content root, its language alternates and its JSON-LD texts.
pub open spec fn page_content(doc: HtmlModel, default_lang: Seq<char>) -> PageContentModel {
    let titles = select_in(doc, "title"@);
    let title0 = if titles.len() > 0 { element_text(titles[0]) } else { Seq::empty() };
    let description = match first_description(select_in(doc, "meta"@)) {
        Some(m) => match attr_of(m, "content"@) {
            Some(c) => c,
            None => Seq::empty(),
        },
        None => Seq::empty(),
    };
    let c = match content_root(doc) {
        Some(root) => extract_children(children_of(root), nothing()),
        None => nothing(),
    };
    let title = if title0.len() > 0 {
        title0
    } else {
        match heading_title(c.blocks) {
            Some(h) => h,
            None => Seq::empty(),
        }
    };
    PageContentModel {
        title,
        description,
        lang: default_lang,
        blocks: c.blocks,
        internal: c.internal,
        external: c.external,
        alternates: alternates_from(select_in(doc, "link"@)),
        json_ld: json_ld_texts(select_in(doc, "script"@)),
    }
}

fn lower_code_of(c: char) -> (r: u32)
    ensures
        r == lower_code(c),
{
    if 'A' <= c && c <= 'Z' {
        (c as u32) + 32
    } else {
        c as u32
    }
}

/// Equality of two texts ignoring ASCII case (`eq_ignore_ascii_case`).
pub fn eq_ignore_case(a: &str, b: &str) -> (r: bool)
    ensures
        r == eq_ignore_ascii_case(a@, b@),
{
    let ca = chars_of(a);
    let cb = chars_of(b);
    if ca.len() != cb.len() {
        return false;
    }
    let mut i: usize = 0;
    while i < ca.len()
        invariant
            i <= ca.len(),
            ca.len() == cb.len(),
            ca@ == a@,
            cb@ == b@,
            forall|j: int| 0 <= j < i ==> lower_code(#[trigger] ca@[j]) == lower_code(cb@[j]),
        decreases ca.len() - i,
    {
        if lower_code_of(ca[i]) != lower_code_of(cb[i]) {
            return false;
        }
        i = i + 1;
    }
    true
}

fn in_html_ns(n: &HtmlNode) -> (r: bool)
    ensures
        r == (ns_of(n@) == html_ns()),
{
    let lit = "http://www.w3.org/1999/xhtml";
    proof {
        reveal_strlit("http://www.w3.org/1999/xhtml");
        assert(lit@ =~= html_ns());
    }
    let same = match n {
        HtmlNode::Element { ns, .. } => str_eq(ns.as_str(), lit),
        _ => false,
    };
    proof {
        if n is Element {
            assert(same == (ns_of(n@) == lit@));
        } else {
            assert(ns_of(n@) =~= Seq::<char>::empty());
        }
    }
    same
}

fn attr_matches_ignoring_case(n: &HtmlNode, name: &str, value: &str) -> (r: bool)
    ensures
        r == attr_matches_ci(n@, name@, value@),
{
    match attr_value(n, name) {
        Some(v) => if in_html_ns(n) {
            eq_ignore_case(v.as_str(), value)
        } else {
            str_eq(v.as_str(), value)
        },
        None => false,
    }
}

/// Sets the address of a language (`put_alternate`).
fn put_alternate_exec(alts: &mut Vec<(String, String)>, lang: String, href: String)
    ensures
        pairs_view(final(alts)@) == put_alternate(pairs_view(old(alts)@), lang@, href@),
{
    let ghost gm = pairs_view(old(alts)@);
    let mut i: usize = 0;
    assert(gm.take(0) =~= Seq::<(Seq<char>, Seq<char>)>::empty());
    assert(gm.skip(0) =~= gm);
    while i < alts.len()
        invariant
            i <= alts.len(),
            alts@ == old(alts)@,
            gm == pairs_view(old(alts)@),
            put_alternate(gm, lang@, href@) == gm.take(i as int) + put_alternate(gm.skip(i as int), lang@, href@),
        decreases alts.len() - i,
    {
        if str_eq(alts[i].0.as_str(), lang.as_str()) {
            let ghost rest = gm.skip(i as int);
            assert(rest[0] == gm[i as int]);
            alts.set(i, (lang, href));
            assert(pairs_view(alts@) =~= gm.take(i as int) + rest.update(0, (lang@, href@)));
            return;
        }
        proof {
            let rest = gm.skip(i as int);
            assert(rest[0] == gm[i as int]);
            assert(rest.drop_first() =~= gm.skip(i + 1));
            assert(gm.take(i + 1) =~= gm.take(i as int) + seq![rest[0]]);
        }
        i = i + 1;
    }
    alts.push((lang, href));
    proof {
        assert(gm.skip(i as int) =~= Seq::<(Seq<char>, Seq<char>)>::empty());
        assert(gm.take(i as int) =~= gm);
        assert(pairs_view(alts@) =~= gm + seq![(lang@, href@)]);
    }
}

/// The language alternates of a document.
fn alternates_of(doc: &HtmlNode) -> (r: Vec<(String, String)>)
    ensures
        pairs_view(r@) == alternates_from(select_in(doc@, "link"@)),
{
    let links = select(doc, "link");
    let ghost m = nodes_model(links@);
    proof {
        lemma_nodes_model(links@);
        assert(m.take(0) =~= Seq::<HtmlModel>::empty());
    }
    let mut r: Vec<(String, String)> = Vec::new();
    assert(pairs_view(r@) =~= Seq::<(Seq<char>, Seq<char>)>::empty());
    let mut i: usize = 0;
    while i < links.len()
        invariant
            i <= links.len(),
            m == nodes_model(links@),
            m.len() == links.len(),
            forall|j: int| 0 <= j < links.len() ==> #[trigger] m[j] == links@[j]@,
            pairs_view(r@) == alternates_from(m.take(i as int)),
        decreases links.len() - i,
    {
        assert(m.take(i + 1).drop_last() =~= m.take(i as int));
        let l = &links[i];
        if attr_matches_ignoring_case(l, "rel", "alternate") {
            match (attr_value(l, "hreflang"), attr_value(l, "href")) {
                (Some(lang), Some(href)) => {
                    if !str_eq(lang.as_str(), "x-default") {
                        put_alternate_exec(&mut r, lang, href);
                    }
                },
                _ => {},
            }
        }
        i = i + 1;
    }
    assert(m.take(links.len() as int) =~= m);
    r
}

/// The texts of a document's JSON-LD scripts.
fn json_ld_of(doc: &HtmlNode) -> (r: Vec<String>)
    ensures
        r@.map_values(|s: String| s@) == json_ld_texts(select_in(doc@, "script"@)),
{
    let scripts = select(doc, "script");
    let ghost m = nodes_model(scripts@);
    proof {
        lemma_nodes_model(scripts@);
        assert(m.take(0) =~= Seq::<HtmlModel>::empty());
    }
    let mut r: Vec<String> = Vec::new();
    let mut i: usize = 0;
    while i < scripts.len()
        invariant
            i <= scripts.len(),
            m == nodes_model(scripts@),
            m.len() == scripts.len(),
            forall|j: int| 0 <= j < scripts.len() ==> #[trigger] m[j] == scripts@[j]@,
            r@.map_values(|s: String| s@) == json_ld_texts(m.take(i as int)),
        decreases scripts.len() - i,
    {
        assert(m.take(i + 1).drop_last() =~= m.take(i as int));
        if attr_matches_ignoring_case(&scripts[i], "type", "application/ld+json") {
            let ghost before = r@;
            r.push(text_trimmed(&scripts[i]));
            assert(r@.map_values(|s: String| s@) =~= before.map_values(|s: String| s@).push(r@.last()@));
        }
        i = i + 1;
    }
    assert(m.take(scripts.len() as int) =~= m);
    r
}

/// The description of a document.
fn description_of(doc: &HtmlNode) -> (r: String)
    ensures
        r@ == match first_description(select_in(doc@, "meta"@)) {
            Some(m) => match attr_of(m, "content"@) {
                Some(c) => c,
                None => Seq::empty(),
            },
            None => Seq::empty(),
        },
{
    let metas = select(doc, "meta");
    let ghost m = nodes_model(metas@);
    proof {
        lemma_nodes_model(metas@);
        assert(m.skip(0) =~= m);
    }
    let mut i: usize = 0;
    while i < metas.len()
        invariant
            i <= metas.len(),
            m == nodes_model(metas@),
            m.len() == metas.len(),
            forall|j: int| 0 <= j < metas.len() ==> #[trigger] m[j] == metas@[j]@,
            m == select_in(doc@, "meta"@),
            first_description(m) == first_description(m.skip(i as int)),
        decreases metas.len() - i,
    {
        assert(m.skip(i as int).subrange(1, m.skip(i as int).len() as int) =~= m.skip(i + 1));
        assert(m.skip(i as int)[0] == m[i as int]);
        let is_description = match attr_value(&metas[i], "name") {
            Some(n) => str_eq(n.as_str(), "description"),
            None => false,
        };
        if is_description {
            assert(first_description(m.skip(i as int)) == Some(m[i as int]));
            let r = match attr_value(&metas[i], "content") {
                Some(c) => c,
                None => String::new(),
            };
            return r;
        }
        i = i + 1;
    }
    assert(m.skip(metas.len() as int) =~= Seq::<HtmlModel>::empty());
    String::new()
}

/// The content root of a document.
fn content_root_of(doc: &HtmlNode) -> (r: Option<HtmlNode>)
    ensures
        match r {
            Some(c) => content_root(doc@) == Some(c@),
            None => content_root(doc@) is None,
        },
{
    let mut mains = select(doc, "main");
    proof {
        lemma_nodes_model(mains@);
    }
    if mains.len() > 0 {
        return Some(mains.swap_remove(0));
    }
    let mut articles = select(doc, "article");
    proof {
        lemma_nodes_model(articles@);
    }
    if articles.len() > 0 {
        return Some(articles.swap_remove(0));
    }
    let mut bodies = select(doc, "body");
    proof {
        lemma_nodes_model(bodies@);
    }
    if bodies.len() > 0 {
        return Some(bodies.swap_remove(0));
    }
    None
}

/// The text of the first heading block.
fn heading_title_of(blocks: &Vec<CborValue>) -> (r: Option<String>)
    ensures
        match r {
            Some(x) => heading_title(models_of(blocks@)) == Some(x@),
            None => heading_title(models_of(blocks@)) is None,
        },
{
    let ghost m = models_of(blocks@);
    proof {
        lemma_models_of(blocks@);
        assert(m.skip(0) =~= m);
    }
    let mut i: usize = 0;
    while i < blocks.len()
        invariant
            i <= blocks.len(),
            m == models_of(blocks@),
            m.len() == blocks.len(),
            forall|j: int| 0 <= j < blocks.len() ==> #[trigger] m[j] == blocks@[j]@,
            heading_title(m) == heading_title(m.skip(i as int)),
        decreases blocks.len() - i,
    {
        assert(m.skip(i as int).subrange(1, m.skip(i as int).len() as int) =~= m.skip(i + 1));
        assert(m.skip(i as int)[0] == m[i as int]);
        match &blocks[i] {
            CborValue::Mapping(pairs) => {
                let ghost pm = crate::value::entry_models_of(pairs@);
                proof {
                    crate::value::lemma_entry_models_of(pairs@);
                }
                let mut is_h = false;
                let mut k: usize = 0;
                while k < pairs.len()
                    invariant
                        k <= pairs.len(),
                        pm == crate::value::entry_models_of(pairs@),
                        pm.len() == pairs.len(),
                        forall|j: int| 0 <= j < pairs.len() ==> #[trigger] pm[j] == (pairs@[j].0@, pairs@[j].1@),
                        is_h == pm.take(k as int).contains((tx("t"@), tx("h"@))),
                    decreases pairs.len() - k,
                {
                    let hit = match (&pairs[k].0, &pairs[k].1) {
                        (CborValue::Text(a), CborValue::Text(b)) => str_eq(a.as_str(), "t") && str_eq(b.as_str(), "h"),
                        _ => false,
                    };
                    proof {
                        assert(pm.take(k + 1) =~= pm.take(k as int).push(pm[k as int]));
                        if hit {
                            assert(pm.take(k + 1)[k as int] == (tx("t"@), tx("h"@)));
                        } else {
                            assert(pm[k as int] != (tx("t"@), tx("h"@)));
                        }
                    }
                    is_h = is_h || hit;
                    k = k + 1;
                }
                assert(pm.take(pairs.len() as int) =~= pm);
                if is_h {
                    let mut k: usize = 0;
                    assert(pm.skip(0) =~= pm);
                    while k < pairs.len()
                        invariant
                            k <= pairs.len(),
                            pm == crate::value::entry_models_of(pairs@),
                            pm.len() == pairs.len(),
                            forall|j: int| 0 <= j < pairs.len() ==> #[trigger] pm[j] == (pairs@[j].0@, pairs@[j].1@),
                            entry_under(pm, "v"@) == entry_under(pm.skip(k as int), "v"@),
                        ensures
                            k <= pairs.len(),
                            entry_under(pm, "v"@) == entry_under(pm.skip(k as int), "v"@),
                            k < pairs.len() ==> pm[k as int].0 == CborModel::Text("v"@),
                        decreases pairs.len() - k,
                    {
                        assert(pm.skip(k as int).subrange(1, pm.skip(k as int).len() as int) =~= pm.skip(k + 1));
                        assert(pm.skip(k as int)[0] == pm[k as int]);
                        let is_v = match &pairs[k].0 {
                            CborValue::Text(a) => str_eq(a.as_str(), "v"),
                            _ => false,
                        };
                        if is_v {
                            break;
                        }
                        k = k + 1;
                    }
                    if k < pairs.len() {
                        assert(pm.skip(k as int)[0] == pm[k as int]);
                        match &pairs[k].1 {
                            CborValue::Text(x) => {
                                let r = x.clone();
                                assert(heading_title(m.skip(i as int)) == Some(r@));
                                return Some(r);
                            },
                            _ => {},
                        }
                    } else {
                        assert(pm.skip(k as int) =~= Seq::<(CborModel, CborModel)>::empty());
                    }
                }
            },
            _ => {},
        }
        i = i + 1;
    }
    assert(m.skip(blocks.len() as int) =~= Seq::<CborModel>::empty());
    None
}

/// Reads a page's content from its document tree.
pub fn page_content_of(doc: &HtmlNode, default_lang: &str) -> (r: PageContent)
    ensures
        r@ == page_content(doc@, default_lang@),
        values_wf(r.blocks@),
{
    let titles = select(doc, "title");
    proof {
        lemma_nodes_model(titles@);
    }
    let mut title = if titles.len() > 0 { text_trimmed(&titles[0]) } else { String::new() };
    let description = description_of(doc);
    let mut blocks: Vec<CborValue> = Vec::new();
    let mut internal_links: Vec<(String, String)> = Vec::new();
    let mut external_links: Vec<(String, String)> = Vec::new();
    proof {
        assert(models_of(blocks@) =~= Seq::<CborModel>::empty());
        assert(pairs_view(internal_links@) =~= Seq::<(Seq<char>, Seq<char>)>::empty());
        assert(pairs_view(external_links@) =~= Seq::<(Seq<char>, Seq<char>)>::empty());
        assert(collected(blocks@, internal_links@, external_links@) == nothing());
    }
    match content_root_of(doc) {
        Some(root) => {
            extract_blocks_recursive(&root, &mut blocks, &mut internal_links, &mut external_links);
        },
        None => {},
    }
    if crate::site::is_empty(&title) {
        match heading_title_of(&blocks) {
            Some(h) => {
                title = h;
            },
            None => {},
        }
    }
    let alternates = alternates_of(doc);
    let json_ld = json_ld_of(doc);
    let ghost want = page_content(doc@, default_lang@);
    assert(title@ == want.title);
    assert(description@ == want.description);
    assert(models_of(blocks@) == want.blocks);
    assert(pairs_view(internal_links@) == want.internal);
    assert(pairs_view(alternates@) == want.alternates);
    assert(json_ld@.map_values(|s: String| s@) == want.json_ld);
    PageContent {
        title,
        description,
        lang: String::from_str(default_lang),
        blocks,
        internal_links,
        external_links,
        alternates,
        json_ld,
    }
}

/// Reads a page's content from its HTML.
pub fn parse_html(html_content: &str, default_lang: &str) -> (r: PageContent)
    ensures
        r@ == page_content(crate::html::parsed_html(html_content@), default_lang@),
        values_wf(r.blocks@),
{
    let doc = crate::html::parse_document(html_content);
    page_content_of(&doc, default_lang)
}

} // verus!
