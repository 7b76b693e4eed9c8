use cbor_web::html::{attr_value, parse_document, select, text_trimmed, HtmlNode};
use cbor_web::json::{cbor_to_json, JsonValue};
use cbor_web::page::{eq_ignore_case, parse_html};

const PAGE: &str = r#"<!DOCTYPE html>
<html><head><title> My Page </title>
<meta name="description" content="Desc here">
<link rel="alternate" hreflang="fr" href="/fr/">
<link rel="alternate" hreflang="x-default" href="/">
<script type="application/ld+json">{"@type":"Thing"}</script>
</head><body>
<h1>Hello</h1>
<p>Text with <a href="/in">inside</a> and <a href="https://ex.com">out</a>.</p>
<ul><li>One</li><li></li><li>Two</li></ul>
<ol><li>A</li></ol>
<blockquote>Quote</blockquote>
<pre><code class="language-rust">fn x() {}</code></pre>
<table><tr><th>H</th></tr><tr><td>1</td><td>2</td></tr></table>
<img src="/i.png">
<hr>
<dl><dt>T</dt><dd>D</dd><dt></dt><dd>lost</dd></dl>
<div><h2>Nested</h2><p></p></div>
<a class="btn" href="/go">Go</a>
<a href="/plain">Plain</a>
<a href="mailto:x@y">Mail</a>
</body></html>"#;

fn member<'a>(v: &'a JsonValue, name: &str) -> Option<&'a JsonValue> {
    match v {
        JsonValue::Object(m) => m.iter().rev().find(|(k, _)| k == name).map(|(_, v)| v),
        _ => None,
    }
}

fn s<'a>(v: Option<&'a JsonValue>) -> &'a str {
    match v {
        Some(JsonValue::Str(x)) => x,
        other => panic!("not a string: {:?}", other),
    }
}

fn strs(v: Option<&JsonValue>) -> Vec<String> {
    match v {
        Some(JsonValue::Array(items)) => items.iter().map(|i| s(Some(i)).to_string()).collect(),
        other => panic!("not an array: {:?}", other),
    }
}

#[test]
fn page_head_fields() {
    let c = parse_html(PAGE, "en");
    assert_eq!(c.title, "My Page");
    assert_eq!(c.description, "Desc here");
    assert_eq!(c.lang, "en");
    assert_eq!(c.alternates, vec![("fr".to_string(), "/fr/".to_string())]);
    assert_eq!(c.json_ld, vec![r#"{"@type":"Thing"}"#.to_string()]);
}

#[test]
fn page_blocks_in_document_order() {
    let c = parse_html(PAGE, "en");
    let blocks: Vec<JsonValue> = c.blocks.iter().map(cbor_to_json).collect();
    let kinds: Vec<&str> = blocks.iter().map(|b| s(member(b, "t"))).collect();
    assert_eq!(kinds, vec!["h", "p", "ul", "ol", "q", "code", "table", "img", "sep", "dl", "h", "cta"]);
    assert!(matches!(member(&blocks[0], "l"), Some(JsonValue::Int(1))));
    assert_eq!(s(member(&blocks[0], "v")), "Hello");
    assert_eq!(s(member(&blocks[1], "v")), "Text with inside and out.");
    assert_eq!(strs(member(&blocks[2], "v")), vec!["One", "Two"]);
    assert_eq!(strs(member(&blocks[3], "v")), vec!["A"]);
    assert_eq!(s(member(&blocks[4], "v")), "Quote");
    assert_eq!(s(member(&blocks[5], "v")), "fn x() {}");
    assert_eq!(s(member(&blocks[5], "lang")), "rust");
    assert_eq!(strs(member(&blocks[6], "headers")), vec!["H"]);
    match member(&blocks[6], "rows") {
        Some(JsonValue::Array(rows)) => {
            assert_eq!(rows.len(), 1);
            match &rows[0] {
                JsonValue::Array(cells) => assert_eq!(cells.len(), 2),
                _ => panic!("row is an array"),
            }
        }
        _ => panic!("rows"),
    }
    assert_eq!(s(member(&blocks[7], "alt")), "Image");
    assert_eq!(s(member(&blocks[7], "src")), "/i.png");
    match member(&blocks[9], "v") {
        Some(JsonValue::Array(defs)) => {
            assert_eq!(defs.len(), 1);
            assert_eq!(s(member(&defs[0], "term")), "T");
            assert_eq!(s(member(&defs[0], "def")), "D");
        }
        _ => panic!("definitions"),
    }
    assert!(matches!(member(&blocks[10], "l"), Some(JsonValue::Int(2))));
    assert_eq!(s(member(&blocks[11], "href")), "/go");
    assert_eq!(s(member(&blocks[11], "v")), "Go");
}

#[test]
fn page_links() {
    let c = parse_html(PAGE, "en");
    assert_eq!(
        c.internal_links,
        vec![("/in".to_string(), "inside".to_string()), ("/plain".to_string(), "Plain".to_string())]
    );
    assert_eq!(c.external_links, vec![("https://ex.com".to_string(), "out".to_string())]);
}

#[test]
fn title_falls_back_to_first_heading() {
    let c = parse_html("<html><body><p>x</p><h3>Sub</h3><h1>Main</h1></body></html>", "fr");
    assert_eq!(c.title, "Sub");
    assert_eq!(c.lang, "fr");
    let c = parse_html("<html><body><p>x</p></body></html>", "fr");
    assert_eq!(c.title, "");
}

#[test]
fn content_root_prefers_main_then_article() {
    let c = parse_html("<body><p>out</p><article><p>art</p></article><main><p>in</p></main></body>", "en");
    assert_eq!(c.blocks.len(), 1);
    assert_eq!(s(member(&cbor_to_json(&c.blocks[0]), "v")), "in");
    let c = parse_html("<body><p>out</p><article><p>art</p></article></body>", "en");
    assert_eq!(c.blocks.len(), 1);
    assert_eq!(s(member(&cbor_to_json(&c.blocks[0]), "v")), "art");
}

#[test]
fn code_without_language_and_pre_without_code() {
    let c = parse_html("<body><pre>plain text</pre><pre><code class=\"x\">c</code></pre></body>", "en");
    assert_eq!(c.blocks.len(), 2);
    let b0 = cbor_to_json(&c.blocks[0]);
    assert_eq!(s(member(&b0, "v")), "plain text");
    assert!(member(&b0, "lang").is_none());
    assert!(member(&cbor_to_json(&c.blocks[1]), "lang").is_none());
}

#[test]
fn image_without_source_is_skipped() {
    let c = parse_html("<body><img alt=\"a\"><img alt=\"b\" src=\"/b.png\"></body>", "en");
    assert_eq!(c.blocks.len(), 1);
    assert_eq!(s(member(&cbor_to_json(&c.blocks[0]), "alt")), "b");
}

#[test]
fn document_queries() {
    let doc = parse_document("<html><body><p class=\"a\"> One </p><div><p>Two</p></div></body></html>");
    let ps = select(&doc, "p");
    assert_eq!(ps.len(), 2);
    assert_eq!(text_trimmed(&ps[0]), "One");
    assert_eq!(text_trimmed(&ps[1]), "Two");
    assert_eq!(attr_value(&ps[0], "class"), Some("a".to_string()));
    assert_eq!(attr_value(&ps[1], "class"), None);
    match &ps[0] {
        HtmlNode::Element { name, .. } => assert_eq!(name, "p"),
        _ => panic!("an element"),
    }
    assert!(select(&doc, "table").is_empty());
}

#[test]
fn ascii_case_insensitive_equality() {
    assert!(eq_ignore_case("Description", "description"));
    assert!(eq_ignore_case("", ""));
    assert!(!eq_ignore_case("abc", "abd"));
    assert!(!eq_ignore_case("ab", "abc"));
    assert!(!eq_ignore_case("É", "é"));
}
