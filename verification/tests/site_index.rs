use cbor_web::crawl::parse_cbor_document;
use cbor_web::generate::{
    build_index, encode_index, generate_index, page_entry_from, path_less, site_changed, sort_pages, summary,
    verify_token, TokenCheck,
};
use cbor_web::json::{cbor_to_json, JsonValue};
use cbor_web::lookup::get_map_value;
use cbor_web::page::parse_html;
use cbor_web::site::{
    access_for, build_meta, build_navigation, build_page_entry, build_security, build_site_metadata, json_to_cbor,
    tier_paths, url_path_for, GenerateArgs, PageEntry, WatchArgs, DEFAULT_PRIORITY_BITS, GENERATOR,
};
use cbor_web::value::{ii, CborValue};

fn args() -> GenerateArgs {
    GenerateArgs {
        input: "site".into(),
        output: "out".into(),
        domain: "example.com".into(),
        name: String::new(),
        description: String::new(),
        default_lang: "en".into(),
        languages: String::new(),
        contact_email: String::new(),
        contact_phone: String::new(),
        country: String::new(),
        region: String::new(),
        default_access: "T2".into(),
        t1_pages: String::new(),
        t0_pages: String::new(),
        auth_mechanisms: String::new(),
        erc20_contract: String::new(),
        rate_limit_t1: 100,
        rate_limit_t2: 10,
        priority: DEFAULT_PRIORITY_BITS,
        freshness: "monthly".into(),
        nav_main: String::new(),
        nav_footer: String::new(),
    }
}

fn page(a: &GenerateArgs, rel: &str, html: &str) -> PageEntry {
    page_entry_from(a, rel, parse_html(html, &a.default_lang), None)
}

fn member<'a>(v: &'a JsonValue, name: &str) -> Option<&'a JsonValue> {
    match v {
        JsonValue::Object(m) => m.iter().rev().find(|(k, _)| k == name).map(|(_, v)| v),
        _ => None,
    }
}

fn s(v: Option<&JsonValue>) -> String {
    match v {
        Some(JsonValue::Str(x)) => x.clone(),
        other => panic!("not a string: {:?}", other),
    }
}

fn strs(v: Option<&JsonValue>) -> Vec<String> {
    match v {
        Some(JsonValue::Array(items)) => items.iter().map(|i| s(Some(i))).collect(),
        other => panic!("not an array: {:?}", other),
    }
}

#[test]
fn url_paths_of_files() {
    assert_eq!(url_path_for("index.html"), "/");
    assert_eq!(url_path_for("about.html"), "/about");
    assert_eq!(url_path_for("blog/index.html"), "/blog");
    assert_eq!(url_path_for("blog/post.htm"), "/blog/post");
    assert_eq!(url_path_for("docs/a.b.html"), "/docs/a.b");
    assert_eq!(url_path_for("docs\\win.html"), "/docs/win");
}

#[test]
fn tier_settings() {
    assert_eq!(tier_paths("/a, /b,,"), vec!["/a".to_string(), "/b".to_string()]);
    assert!(tier_paths("").is_empty());
    let t0 = tier_paths("/private");
    let t1 = tier_paths("/blog,/p");
    assert_eq!(access_for("/private/x", &t0, &t1, "T2"), "T0");
    assert_eq!(access_for("/blog/x", &t0, &t1, "T2"), "T1");
    assert_eq!(access_for("/pricing", &t0, &t1, "T2"), "T1");
    assert_eq!(access_for("/", &t0, &t1, "T2"), "T2");
    // A blank piece trims to "", a prefix of every path.
    assert_eq!(access_for("/anything", &tier_paths(" "), &vec![], "T2"), "T0");
}

#[test]
fn t0_wins_over_t1() {
    let t0 = tier_paths("/blog/secret");
    let t1 = tier_paths("/blog");
    assert_eq!(access_for("/blog/secret/1", &t0, &t1, "T2"), "T0");
}

#[test]
fn page_entry_fields() {
    let mut a = args();
    a.t1_pages = "/blog".into();
    let p = page(&a, "blog/post.html", "<body><h1>Post</h1><p>Body</p></body>");
    assert_eq!(p.path, "/blog/post");
    assert_eq!(p.title, "Post");
    assert_eq!(p.access, "T1");
    assert_eq!(p.blocks.len(), 2);
    assert_eq!(p.hash.len(), 32);
    assert!(p.content_size > 0);
    let q = page(&a, "empty.html", "<body></body>");
    assert_eq!(q.title, "/empty");
    assert_eq!(q.access, "T2");
    // An empty block list encodes as the single byte 0x80.
    assert_eq!(q.content_size, 1);
    assert_eq!(
        cbor_web::digest::sha256_hex(&[0x80]),
        q.hash.iter().map(|b| format!("{:02x}", b)).collect::<String>()
    );
}

#[test]
fn pages_sorted_by_path_stably() {
    let a = args();
    let pages = vec![
        page(&a, "b.html", "<title>B</title>"),
        page(&a, "index.html", "<title>Home</title>"),
        page(&a, "a/index.html", "<title>A1</title>"),
        page(&a, "a.html", "<title>A2</title>"),
    ];
    let sorted = sort_pages(pages);
    let order: Vec<(String, String)> = sorted.iter().map(|p| (p.path.clone(), p.title.clone())).collect();
    assert_eq!(
        order,
        vec![
            ("/".to_string(), "Home".to_string()),
            ("/a".to_string(), "A1".to_string()),
            ("/a".to_string(), "A2".to_string()),
            ("/b".to_string(), "B".to_string()),
        ]
    );
    assert!(path_less(&"/a".to_string(), &"/b".to_string()));
    assert!(path_less(&"/a".to_string(), &"/a/b".to_string()));
    assert!(!path_less(&"/a".to_string(), &"/a".to_string()));
}

#[test]
fn site_metadata_defaults() {
    let j = cbor_to_json(&build_site_metadata(&args()));
    assert_eq!(s(member(&j, "domain")), "example.com");
    assert_eq!(s(member(&j, "name")), "example.com");
    assert_eq!(strs(member(&j, "languages")), vec!["en"]);
    assert_eq!(s(member(&j, "default_language")), "en");
    assert!(member(&j, "description").is_none());
    assert!(member(&j, "contact").is_none());
    assert!(member(&j, "geo").is_none());
}

#[test]
fn site_metadata_full() {
    let mut a = args();
    a.name = "Ex".into();
    a.description = "D".into();
    a.languages = "en, fr".into();
    a.contact_email = "a@b.c".into();
    a.country = "FR".into();
    let j = cbor_to_json(&build_site_metadata(&a));
    assert_eq!(s(member(&j, "name")), "Ex");
    assert_eq!(s(member(&j, "description")), "D");
    assert_eq!(strs(member(&j, "languages")), vec!["en", "fr"]);
    assert_eq!(s(member(member(&j, "contact").unwrap(), "email")), "a@b.c");
    assert!(member(member(&j, "contact").unwrap(), "phone").is_none());
    assert_eq!(s(member(member(&j, "geo").unwrap(), "country")), "FR");
}

#[test]
fn security_section() {
    let mut a = args();
    let j = cbor_to_json(&build_security(&a));
    assert_eq!(s(member(&j, "default_access")), "T2");
    assert!(member(&j, "auth").is_none());
    assert!(matches!(member(member(&j, "rate_limit").unwrap(), "T1"), Some(JsonValue::Int(100))));
    a.auth_mechanisms = "erc20, token".into();
    a.erc20_contract = "0xabc".into();
    let j = cbor_to_json(&build_security(&a));
    let auth = member(&j, "auth").unwrap();
    assert_eq!(strs(member(auth, "mechanisms")), vec!["erc20", "token"]);
    assert_eq!(s(member(member(auth, "erc20").unwrap(), "chain")), "ethereum");
    assert_eq!(s(member(member(auth, "erc20").unwrap(), "contract_address")), "0xabc");
}

#[test]
fn navigation_from_paths() {
    let a = args();
    let pages = sort_pages(vec![
        page(&a, "index.html", ""),
        page(&a, "about.html", ""),
        page(&a, "blog/a.html", ""),
        page(&a, "blog/b.html", ""),
        page(&a, "docs/x/y.html", ""),
    ]);
    let j = cbor_to_json(&build_navigation(&a, &pages));
    assert_eq!(strs(member(&j, "main")), vec!["/", "/about"]);
    assert!(member(&j, "footer").is_none());
    let h = member(&j, "hierarchy").unwrap();
    assert_eq!(strs(member(h, "/blog")), vec!["/blog/a", "/blog/b"]);
    assert_eq!(strs(member(h, "/docs/x")), vec!["/docs/x/y"]);
}

#[test]
fn navigation_given_by_settings() {
    let mut a = args();
    a.nav_main = "/, /shop".into();
    a.nav_footer = "/legal".into();
    let j = cbor_to_json(&build_navigation(&a, &vec![]));
    assert_eq!(strs(member(&j, "main")), vec!["/", "/shop"]);
    assert_eq!(strs(member(&j, "footer")), vec!["/legal"]);
    assert!(member(&j, "hierarchy").is_none());
    let none = build_navigation(&args(), &vec![]);
    assert!(matches!(none, CborValue::Mapping(ref e) if e.is_empty()));
}

#[test]
fn meta_section() {
    let j = cbor_to_json(&build_meta(3, 99, 1_700_000_000));
    assert!(matches!(member(&j, "generated_at"), Some(JsonValue::Int(1_700_000_000))));
    assert_eq!(s(member(&j, "generator")), GENERATOR);
    assert!(matches!(member(&j, "total_pages"), Some(JsonValue::Int(3))));
    assert!(matches!(member(&j, "total_size"), Some(JsonValue::Int(99))));
}

#[test]
fn page_entry_in_index() {
    let mut a = args();
    a.freshness = "daily".into();
    a.priority = 0x3FF0_0000_0000_0000; // 1.0
    let html = r#"<head><meta name="description" content="About us">
        <link rel="alternate" hreflang="de" href="/de/about"></head>
        <body><p><a href="/x">X</a> <a href="https://y.org">Y</a></p></body>"#;
    let p = page(&a, "about.html", html);
    let j = cbor_to_json(&build_page_entry(&p, 42));
    assert_eq!(s(member(&j, "path")), "/about");
    assert_eq!(s(member(&j, "access")), "T2");
    assert_eq!(s(member(&j, "lang")), "en");
    assert_eq!(s(member(&j, "description")), "About us");
    assert_eq!(s(member(&j, "freshness")), "daily");
    assert!(matches!(member(&j, "priority"), Some(JsonValue::Float(0x3FF0_0000_0000_0000))));
    assert!(matches!(member(&j, "updated"), Some(JsonValue::Int(42))));
    assert_eq!(s(member(member(&j, "alternates").unwrap(), "de")), "/de/about");
    let links = member(&j, "links").unwrap();
    match member(links, "internal") {
        Some(JsonValue::Array(l)) => {
            assert_eq!(s(member(&l[0], "path")), "/x");
            assert_eq!(s(member(&l[0], "text")), "X");
        }
        _ => panic!("internal links"),
    }
    match member(links, "external") {
        Some(JsonValue::Array(l)) => assert_eq!(s(member(&l[0], "url")), "https://y.org"),
        _ => panic!("external links"),
    }
    let plain = page(&args(), "p.html", "<body></body>");
    let j = cbor_to_json(&build_page_entry(&plain, 1));
    assert!(member(&j, "priority").is_none());
    assert!(member(&j, "freshness").is_none());
    assert!(member(&j, "links").is_none());
    assert!(member(&j, "alternates").is_none());
    assert!(member(&j, "description").is_none());
}

#[test]
fn structured_data_drops_context() {
    let sd = JsonValue::Object(vec![
        ("@context".into(), JsonValue::Str("https://schema.org".into())),
        ("@type".into(), JsonValue::Str("Product".into())),
        ("price".into(), JsonValue::Int(30)),
    ]);
    let j = cbor_to_json(&json_to_cbor(&sd));
    assert!(member(&j, "@context").is_none());
    assert_eq!(s(member(&j, "@type")), "Product");
    assert!(matches!(member(&j, "price"), Some(JsonValue::Int(30))));
}

#[test]
fn index_document_layout() {
    let a = args();
    let pages = sort_pages(vec![page(&a, "index.html", "<title>Home</title><p>Hi</p>"), page(&a, "blog/a.html", "<h1>A</h1>")]);
    let bytes = encode_index(&a, &pages, 1000);
    assert_eq!(&bytes[0..3], &[0xD9, 0xD9, 0xF7]);
    let doc = parse_cbor_document(&bytes).expect("decodes");
    let built = build_index(&a, &pages, 1000);
    match &built {
        CborValue::Tag(55799, inner) => assert!(cbor_web::value::values_equal(&doc, inner)),
        _ => panic!("self-described"),
    }
    let j = cbor_to_json(&doc);
    assert_eq!(s(member(&j, "0")), "cbor-web");
    assert!(matches!(member(&j, "1"), Some(JsonValue::Int(3))));
    match member(&j, "5") {
        Some(JsonValue::Array(ps)) => {
            assert_eq!(ps.len(), 2);
            assert_eq!(s(member(&ps[0], "path")), "/");
            assert_eq!(s(member(&ps[1], "path")), "/blog/a");
        }
        _ => panic!("page list"),
    }
    let meta = member(&j, "6").unwrap();
    assert!(matches!(member(meta, "total_pages"), Some(JsonValue::Int(2))));
    let total = (pages[0].content_size + pages[1].content_size) as i128;
    assert!(matches!(member(meta, "total_size"), Some(JsonValue::Int(n)) if *n == total));
    assert!(get_map_value(&doc, &ii(4)).is_some());
    let now_bytes = generate_index(&a, &pages);
    assert_eq!(&now_bytes[0..3], &[0xD9, 0xD9, 0xF7]);
}

#[test]
fn generation_summary() {
    let a = args();
    let pages = vec![page(&a, "index.html", "<title>Home</title><p>Hi</p>")];
    let j = summary(&a, &pages, 123);
    assert_eq!(s(member(&j, "type")), "cbor-web");
    assert!(matches!(member(&j, "version"), Some(JsonValue::Int(3))));
    assert_eq!(s(member(&j, "domain")), "example.com");
    match member(&j, "pages") {
        Some(JsonValue::Array(ps)) => {
            assert_eq!(s(member(&ps[0], "title")), "Home");
            assert!(matches!(member(&ps[0], "blocks"), Some(JsonValue::Int(1))));
            assert_eq!(s(member(&ps[0], "hash")).len(), 64);
        }
        _ => panic!("pages"),
    }
    let stats = member(&j, "stats").unwrap();
    assert!(matches!(member(stats, "index_cbor_bytes"), Some(JsonValue::Int(123))));
}

#[test]
fn publisher_tokens() {
    assert_eq!(verify_token(""), TokenCheck::Free);
    assert_eq!(verify_token("cbw_123"), TokenCheck::Publisher);
    assert_eq!(verify_token("abc"), TokenCheck::Invalid);
}

#[test]
fn change_detection() {
    assert!(!site_changed(&vec![1, 2], &vec![1, 2]));
    assert!(site_changed(&vec![1, 2], &vec![1, 3]));
    assert!(site_changed(&vec![], &vec![0]));
}

#[test]
fn watch_settings_become_generation_settings() {
    let w = WatchArgs {
        site: "s".into(),
        output: "o".into(),
        domain: "d.com".into(),
        token: String::new(),
        interval: 5,
        name: "N".into(),
        default_lang: "en".into(),
        languages: String::new(),
        contact_email: String::new(),
        contact_phone: String::new(),
        country: String::new(),
        region: String::new(),
        description: String::new(),
        default_access: "T2".into(),
        t1_pages: "/p".into(),
        priority: DEFAULT_PRIORITY_BITS,
        freshness: "weekly".into(),
    };
    let g = w.to_generate_args();
    assert_eq!(g.input, "s");
    assert_eq!(g.t1_pages, "/p");
    assert_eq!(g.t0_pages, "");
    assert_eq!(g.rate_limit_t1, 50);
    assert_eq!(g.rate_limit_t2, 10);
    assert_eq!(g.freshness, "weekly");
}

#[test]
fn site_digest_covers_paths_lengths_and_times() {
    let files = vec![
        ("a/x.html".to_string(), Some((5u64, Some(7u64)))),
        ("b.html".to_string(), Some((9u64, None))),
        ("c.htm".to_string(), None),
    ];
    let d = cbor_web::generate::site_digest(&files);
    let hex: String = d.iter().map(|b| format!("{:02x}", b)).collect();
    assert_eq!(hex, "d6369d282f3c082999ed2b8c47647dda00d20de4f9888cdd65955dbcd26a05f5");
    assert!(!site_changed(&d, &cbor_web::generate::site_digest(&files)));
    let mut touched = files.clone();
    touched[0].1 = Some((5, Some(8)));
    assert!(site_changed(&d, &cbor_web::generate::site_digest(&touched)));
}
