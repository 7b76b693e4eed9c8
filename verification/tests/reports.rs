use cbor_web::canonical::canonical_map;
use cbor_web::content::{cbor_block_to_json, extract_page_content};
use cbor_web::crawl::{block_matches_content, bundle_pages, parse_cbor_document, put_page};
use cbor_web::describe::{cut_text, enrich_block_with_describe, enrich_blocks, is_describable, join_strs, split_words};
use cbor_web::json::{cbor_to_json, JsonValue};
use cbor_web::render::block_text_lines;
use cbor_web::report::{diff_manifest_lines, doleance_document, doleance_payload, in_path_order, search_page, verify_lines};
use cbor_web::value::{arr, t, u, CborValue};
use cbor_web::vectors::encoded_vector;

fn obj(members: Vec<(&str, JsonValue)>) -> JsonValue {
    JsonValue::Object(members.into_iter().map(|(k, v)| (k.to_string(), v)).collect())
}

fn js(s: &str) -> JsonValue {
    JsonValue::Str(s.to_string())
}

fn jarr(items: Vec<JsonValue>) -> JsonValue {
    JsonValue::Array(items)
}

fn member<'a>(v: &'a JsonValue, name: &str) -> Option<&'a JsonValue> {
    match v {
        JsonValue::Object(m) => m.iter().rev().find(|(k, _)| k == name).map(|(_, v)| v),
        _ => None,
    }
}

fn s(v: Option<&JsonValue>) -> String {
    match v {
        Some(JsonValue::Str(x)) => x.clone(),
        other => panic!("not a string: {:?}", other),
    }
}

// ── Verification report ──

#[test]
fn verify_report_of_document() {
    let doc = CborValue::Tag(55799, Box::new(canonical_map(vec![(u(0), t("cbor-web-page")), (u(1), u(2))])));
    let (bytes, _) = encoded_vector(&doc);
    let lines = verify_lines("p.cbor", &bytes).unwrap();
    assert_eq!(lines[0], format!("File: p.cbor ({} bytes)", bytes.len()));
    assert_eq!(lines[1], "Self-described tag: OK (D9 D9 F7)");
    assert_eq!(lines[2], "Document type: cbor-web-page");
    assert_eq!(lines[3], "Valid page structure");
    assert_eq!(lines[4], "Version: 2");
    assert_eq!(lines[5], format!("SHA-256: {}", cbor_web::digest::sha256_hex(&bytes)));
    assert_eq!(lines[6], "Verification: PASS");
    assert_eq!(lines.len(), 7);
}

#[test]
fn verify_report_unknown_type() {
    let doc = CborValue::Tag(55799, Box::new(canonical_map(vec![(u(0), t("zz"))])));
    let (bytes, _) = encoded_vector(&doc);
    let lines = verify_lines("x", &bytes).unwrap();
    assert_eq!(lines[3], "Unknown document type: zz");
    assert_eq!(lines.len(), 6);
}

#[test]
fn verify_report_missing_tag() {
    let lines = verify_lines("f", &[0xA0]).unwrap();
    assert_eq!(lines, vec!["File: f (1 bytes)".to_string(), "ERROR: Missing self-described CBOR tag (D9 D9 F7)".to_string()]);
}

#[test]
fn verify_report_undecodable() {
    assert!(verify_lines("f", &[0xD9, 0xD9, 0xF7]).is_err());
}

// ── Diff manifest ──

#[test]
fn diff_manifest_summary() {
    let diff = canonical_map(vec![
        (t("diff_version"), u(1)),
        (t("base_version_hash"), CborValue::Bytes(vec![0xAB; 20])),
        (t("stats"), canonical_map(vec![(t("pages_added"), u(2)), (t("total_pages_now"), u(9))])),
        (
            t("changes"),
            arr(vec![
                canonical_map(vec![(t("path"), t("/a")), (t("action"), t("added"))]),
                canonical_map(vec![(t("path"), t("/b")), (t("action"), t("removed"))]),
                canonical_map(vec![(t("action"), t("odd"))]),
            ]),
        ),
    ]);
    let lines = diff_manifest_lines(&diff);
    assert!(lines.contains(&"║  Diff version:  1".to_string()));
    assert!(lines.contains(&format!("║  Base hash:     {}...", "ab".repeat(16))));
    assert!(lines.contains(&"║  Pages added:    2".to_string()));
    assert!(lines.contains(&"║  Pages modified: 0".to_string()));
    assert!(lines.contains(&"║  Total pages:    9".to_string()));
    assert!(lines.contains(&"║  + /a [added]".to_string()));
    assert!(lines.contains(&"║  - /b [removed]".to_string()));
    assert!(lines.contains(&"║  ? ? [odd]".to_string()));
    assert_eq!(lines.last().unwrap(), "╚══════════════════════════════════════════════════╝");
}

// ── Doléance ──

#[test]
fn doleance_document_fields() {
    let feedback = obj(vec![
        ("page_path", js("/p")),
        ("signals", jarr(vec![obj(vec![("signal", js("stale")), ("details", js("old"))]), obj(vec![])])),
    ]);
    let doc = doleance_document("https://ex.com//", &feedback, 99);
    let inner = match &doc {
        CborValue::Tag(55799, inner) => inner,
        _ => panic!("self-described"),
    };
    let j = cbor_to_json(inner);
    assert_eq!(s(member(&j, "0")), "cbor-web-doleance");
    assert!(matches!(member(&j, "1"), Some(JsonValue::Int(1))));
    let site = member(&j, "2").unwrap();
    assert_eq!(s(member(site, "domain")), "ex.com");
    assert_eq!(s(member(site, "page_path")), "/p");
    match member(&j, "3") {
        Some(JsonValue::Array(sig)) => {
            assert_eq!(sig.len(), 2);
            assert_eq!(s(member(&sig[0], "signal")), "stale");
            assert_eq!(s(member(&sig[0], "details")), "old");
            assert_eq!(s(member(&sig[0], "block_type")), "");
            assert_eq!(s(member(&sig[1], "signal")), "missing_data");
        }
        _ => panic!("signals"),
    }
    let agent = member(&j, "4").unwrap();
    assert_eq!(s(member(agent, "agent")), "cbor-crawl/0.2.0");
    assert!(matches!(member(agent, "timestamp"), Some(JsonValue::Int(99))));
}

#[test]
fn doleance_defaults_and_payload() {
    let doc = doleance_document("http://site.org", &obj(vec![]), 5);
    let j = match &doc {
        CborValue::Tag(_, inner) => cbor_to_json(inner),
        _ => panic!("tagged"),
    };
    let site = member(&j, "2").unwrap();
    assert_eq!(s(member(site, "domain")), "site.org");
    assert_eq!(s(member(site, "page_path")), "/");
    assert!(matches!(member(&j, "3"), Some(JsonValue::Array(a)) if a.is_empty()));
    let payload = doleance_payload("http://site.org", &obj(vec![]), 5);
    assert_eq!(&payload[0..3], &[0xD9, 0xD9, 0xF7]);
    let back = parse_cbor_document(&payload).unwrap();
    match &doc {
        CborValue::Tag(_, inner) => assert!(cbor_web::value::values_equal(&back, inner)),
        _ => panic!("tagged"),
    }
}

// ── Pages and search ──

fn page_doc() -> CborValue {
    canonical_map(vec![
        (u(0), t("cbor-web-page")),
        (u(2), canonical_map(vec![(t("path"), t("/docs")), (t("lang"), t("en"))])),
        (u(3), canonical_map(vec![(t("title"), t("Rust Guide")), (t("description"), t("All about it"))])),
        (
            u(4),
            arr(vec![
                canonical_map(vec![(t("t"), t("h")), (t("l"), u(2)), (t("v"), t("Install"))]),
                canonical_map(vec![(t("t"), t("p")), (t("v"), t("Use cargo to build."))]),
                canonical_map(vec![(t("t"), t("ul")), (t("v"), arr(vec![t("One"), u(3), t("Two")]))]),
                canonical_map(vec![(t("t"), t("mystery")), (t("x"), u(1))]),
                u(7),
            ]),
        ),
        (u(6), canonical_map(vec![(t("@type"), t("Article"))])),
    ])
}

#[test]
fn page_content_as_json() {
    let c = extract_page_content(&page_doc());
    assert_eq!(s(member(&c, "path")), "/docs");
    assert_eq!(s(member(&c, "lang")), "en");
    assert_eq!(s(member(&c, "title")), "Rust Guide");
    assert_eq!(s(member(&c, "description")), "All about it");
    let blocks = match member(&c, "blocks") {
        Some(JsonValue::Array(b)) => b,
        _ => panic!("blocks"),
    };
    assert_eq!(blocks.len(), 5);
    assert_eq!(s(member(&blocks[0], "type")), "h");
    assert!(matches!(member(&blocks[0], "level"), Some(JsonValue::Int(2))));
    assert_eq!(s(member(&blocks[0], "text")), "Install");
    match member(&blocks[2], "items") {
        Some(JsonValue::Array(items)) => assert_eq!(items.len(), 2),
        _ => panic!("items"),
    }
    assert_eq!(s(member(&blocks[3], "type")), "mystery");
    assert!(member(&blocks[3], "_raw").is_some());
    assert!(matches!(blocks[4], JsonValue::Null));
    assert_eq!(s(member(member(&c, "structured_data").unwrap(), "@type")), "Article");
}

#[test]
fn block_json_of_code_and_quote() {
    let b = cbor_block_to_json(&canonical_map(vec![(t("t"), t("code")), (t("v"), t("x=1")), (t("lang"), t("py"))]));
    assert_eq!(s(member(&b, "language")), "py");
    let q = cbor_block_to_json(&canonical_map(vec![(t("t"), t("q")), (t("v"), t("Hi")), (t("attr"), t("Me"))]));
    assert_eq!(s(member(&q, "attribution")), "Me");
    let none = cbor_block_to_json(&canonical_map(vec![(t("v"), t("x"))]));
    assert_eq!(s(member(&none, "type")), "unknown");
}

#[test]
fn rendered_block_lines() {
    let h = obj(vec![("type", js("h")), ("level", JsonValue::Int(3)), ("text", js("T"))]);
    assert_eq!(block_text_lines(&h), vec!["".to_string(), "### T".to_string()]);
    let ol = obj(vec![("type", js("ol")), ("items", jarr(vec![js("a"), js("b")]))]);
    assert_eq!(block_text_lines(&ol), vec!["  1. a".to_string(), "  2. b".to_string()]);
    let ul = obj(vec![("type", js("ul")), ("items", jarr(vec![js("a")]))]);
    assert_eq!(block_text_lines(&ul), vec!["  • a".to_string()]);
    let code = obj(vec![("type", js("code")), ("text", js("x")), ("language", js("rs"))]);
    assert_eq!(block_text_lines(&code), vec!["```rs".to_string(), "x".to_string(), "```".to_string()]);
    let table = obj(vec![
        ("type", js("table")),
        ("headers", jarr(vec![js("A"), js("Bb")])),
        ("rows", jarr(vec![jarr(vec![js("1"), js("2")])])),
    ]);
    assert_eq!(
        block_text_lines(&table),
        vec!["| A | Bb |".to_string(), "|---|----|".to_string(), "| 1 | 2 |".to_string()]
    );
    let cta = obj(vec![("type", js("cta")), ("text", js("Go")), ("href", js("/g"))]);
    assert_eq!(block_text_lines(&cta), vec!["[Go] → /g".to_string()]);
    let note = obj(vec![("type", js("note")), ("level", js("warn")), ("text", js("careful"))]);
    assert_eq!(block_text_lines(&note), vec!["[⚠] careful".to_string()]);
    let q = obj(vec![("type", js("q")), ("text", js("Hi")), ("attribution", js("Me"))]);
    assert_eq!(block_text_lines(&q), vec!["  > Hi".to_string(), "    — Me".to_string()]);
    let embed = obj(vec![("type", js("embed")), ("src", js("v.mp4"))]);
    assert_eq!(block_text_lines(&embed), vec!["[embed] v.mp4".to_string()]);
    assert_eq!(block_text_lines(&obj(vec![("type", js("sep"))])), vec!["---".to_string()]);
    assert!(block_text_lines(&obj(vec![("type", js("zzz"))])).is_empty());
}

#[test]
fn block_matching() {
    let p = obj(vec![("type", js("p")), ("text", js("Hello World"))]);
    assert!(block_matches_content(&p, "world"));
    assert!(!block_matches_content(&p, "mars"));
    assert!(block_matches_content(&p, "p"));
    let dl = obj(vec![("type", js("dl")), ("items", jarr(vec![obj(vec![("term", js("Key")), ("def", js("Value"))])]))]);
    assert!(block_matches_content(&dl, "value"));
    let t = obj(vec![("type", js("table")), ("rows", jarr(vec![jarr(vec![js("Cell")])]))]);
    assert!(block_matches_content(&t, "cell"));
}

#[test]
fn page_search_counts_and_previews() {
    let c = extract_page_content(&page_doc());
    let (n, title_hit, previews) = search_page(&c, "rust");
    assert_eq!(n, 0);
    assert!(title_hit);
    assert_eq!(previews, vec!["Rust Guide".to_string()]);
    let (n, title_hit, previews) = search_page(&c, "cargo");
    assert_eq!(n, 1);
    assert!(!title_hit);
    assert_eq!(previews, vec!["Use cargo to build.".to_string()]);
    let (n, _, previews) = search_page(&c, "two");
    assert_eq!(n, 1);
    assert!(previews.is_empty());
}

#[test]
fn search_preview_is_truncated() {
    let long = "x".repeat(100);
    let c = obj(vec![("blocks", jarr(vec![obj(vec![("type", js("p")), ("text", js(&long))])]))]);
    let (n, title_hit, previews) = search_page(&c, "x");
    assert_eq!(n, 1);
    assert!(!title_hit);
    assert_eq!(previews, vec![format!("{}...", "x".repeat(80))]);
}

#[test]
fn collected_pages_by_path() {
    let mut pages: Vec<(String, JsonValue)> = Vec::new();
    put_page(&mut pages, "/b".into(), JsonValue::Int(1));
    put_page(&mut pages, "/a".into(), JsonValue::Int(2));
    put_page(&mut pages, "/b".into(), JsonValue::Int(3));
    assert_eq!(pages.len(), 2);
    let ordered = in_path_order(pages);
    let paths: Vec<&str> = ordered.iter().map(|(p, _)| p.as_str()).collect();
    assert_eq!(paths, vec!["/a", "/b"]);
    assert!(matches!(ordered[1].1, JsonValue::Int(3)));
}

#[test]
fn bundle_page_map() {
    let bundle = canonical_map(vec![
        (u(0), t("cbor-web-bundle")),
        (u(3), canonical_map(vec![(t("/x"), page_doc()), (u(9), page_doc())])),
    ]);
    let pages = bundle_pages(&bundle);
    assert_eq!(pages.len(), 1);
    assert_eq!(pages[0].0, "/x");
    assert_eq!(s(member(&pages[0].1, "title")), "Rust Guide");
    assert!(bundle_pages(&canonical_map(vec![])).is_empty());
}

// ── Describe hints ──

#[test]
fn describe_hints() {
    let h = enrich_block_with_describe(&canonical_map(vec![(t("t"), t("h")), (t("l"), u(1)), (t("v"), t("Title"))]));
    let j = cbor_to_json(&h);
    assert_eq!(s(member(&j, "_describe")), "Heading level 1: Title");
    assert!(matches!(member(&j, "_l"), Some(JsonValue::Int(0))));
    let p = cbor_to_json(&enrich_block_with_describe(&canonical_map(vec![(t("t"), t("p")), (t("v"), t("short"))])));
    assert!(member(&p, "_describe").is_none());
    assert!(matches!(member(&p, "_l"), Some(JsonValue::Int(2))));
    let long: String = (0..40).map(|i| format!("w{} ", i)).collect();
    let p = cbor_to_json(&enrich_block_with_describe(&canonical_map(vec![(t("t"), t("p")), (t("v"), t(&long))])));
    let d = s(member(&p, "_describe"));
    assert!(d.starts_with("w0 w1 w2"));
    assert!(d.ends_with("w29..."));
    let tbl = cbor_to_json(&enrich_block_with_describe(&canonical_map(vec![
        (t("t"), t("table")),
        (t("headers"), arr(vec![t("A"), t("B")])),
        (t("rows"), arr(vec![arr(vec![]), arr(vec![])])),
    ])));
    assert_eq!(s(member(&tbl, "_describe")), "Table: A, B. 2 rows.");
    assert!(matches!(member(&tbl, "_l"), Some(JsonValue::Int(1))));
    let q = cbor_to_json(&enrich_block_with_describe(&canonical_map(vec![(t("t"), t("q")), (t("v"), t("Hi"))])));
    assert_eq!(s(member(&q, "_describe")), "Quote: Hi...");
    let code = cbor_to_json(&enrich_block_with_describe(&canonical_map(vec![(t("t"), t("code")), (t("v"), t("x"))])));
    assert_eq!(s(member(&code, "_describe")), "Code block: unknown");
    let img = cbor_to_json(&enrich_block_with_describe(&canonical_map(vec![(t("t"), t("img")), (t("alt"), t("Cat"))])));
    assert_eq!(s(member(&img, "_describe")), "Image: Cat");
    assert!(matches!(member(&img, "_l"), Some(JsonValue::Int(4))));
    let sep = cbor_to_json(&enrich_block_with_describe(&canonical_map(vec![(t("t"), t("sep"))])));
    assert!(member(&sep, "_describe").is_none());
    let not_map = enrich_block_with_describe(&u(1));
    assert!(matches!(not_map, CborValue::Integer(1)));
    assert_eq!(enrich_blocks(&vec![u(1), u(2)]).len(), 2);
}

#[test]
fn word_helpers() {
    assert_eq!(split_words("  a b\t c\n"), vec!["a".to_string(), "b".to_string(), "c".to_string()]);
    assert_eq!(join_strs(&vec!["a".into(), "b".into(), "c".into()], 2, "-"), "a-b");
    assert_eq!(cut_text("abcdef", 3), "abc");
    assert_eq!(cut_text("ab", 3), "ab");
}

#[test]
fn sent_feedback_is_recorded_as_sent() {
    let feedback = obj(vec![("page_path", js("/p")), ("signals", jarr(vec![obj(vec![("signal", js("stale"))])]))]);
    let payload = doleance_payload("https://ex.com", &feedback, 7);
    let record = cbor_web::server::doleance_entry(&payload, 9);
    let sent = cbor_to_json(&doleance_document("https://ex.com", &feedback, 7));
    let got = member(&record, "doleance").expect("recorded");
    assert_eq!(format!("{:?}", got), format!("{:?}", sent));
    assert!(member(&record, "parse_error").is_none());
}

#[test]
fn describable_blocks() {
    let ascii = canonical_map(vec![(t("t"), t("h")), (t("v"), t(&"a".repeat(60)))]);
    assert!(is_describable(&ascii));
    // 49 ASCII bytes, then a two-byte character across the 50th byte.
    let cut = canonical_map(vec![(t("t"), t("h")), (t("v"), t(&format!("{}é", "a".repeat(49))))]);
    assert!(!is_describable(&cut));
    let quote = canonical_map(vec![(t("t"), t("q")), (t("v"), t(&format!("{}éé", "a".repeat(39))))]);
    assert!(!is_describable(&quote));
    let para = canonical_map(vec![(t("t"), t("p")), (t("v"), t(&format!("{}é", "a".repeat(49))))]);
    assert!(is_describable(&para));
    assert!(is_describable(&u(1)));
}

#[test]
fn site_search_ignores_case_of_query() {
    let pages = vec![
        ("/a".to_string(), extract_page_content(&page_doc())),
        ("/b".to_string(), obj(vec![("blocks", jarr(vec![obj(vec![("type", js("p")), ("text", js("nothing"))])]))])),
    ];
    let r = cbor_web::report::search_site(&pages, "CARGO");
    assert_eq!(r.len(), 2);
    assert_eq!(r[0].0, 1);
    assert!(!r[0].1);
    assert_eq!(r[0].2, vec!["Use cargo to build.".to_string()]);
    assert_eq!(r[1].0, 0);
    assert!(r[1].2.is_empty());
    let r = cbor_web::report::search_site(&pages, "Rust");
    assert!(r[0].1);
}

#[test]
fn non_finite_floats_become_null() {
    assert!(matches!(cbor_to_json(&CborValue::Float(f64::NAN.to_bits())), JsonValue::Null));
    assert!(matches!(cbor_to_json(&CborValue::Float(f64::INFINITY.to_bits())), JsonValue::Null));
    assert!(matches!(cbor_to_json(&CborValue::Float(f64::NEG_INFINITY.to_bits())), JsonValue::Null));
    let bits = 1.5f64.to_bits();
    assert!(matches!(cbor_to_json(&CborValue::Float(bits)), JsonValue::Float(b) if b == bits));
}

#[test]
fn queries_alike_in_lowercase_find_the_same() {
    let pages = vec![("/a".to_string(), extract_page_content(&page_doc()))];
    let r1 = cbor_web::report::search_site(&pages, "RuSt GuIdE");
    let r2 = cbor_web::report::search_site(&pages, "rust guide");
    assert_eq!(r1, r2);
    assert!(r1[0].1);
}
