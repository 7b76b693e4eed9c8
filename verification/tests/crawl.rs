use cbor_web::canonical::canonical_map;
use cbor_web::crawl::{
    check_response, document_type, fetch_targets, hash_mismatch, inspect_keys, is_unified, layout_keys,
    manifest_format, needs_auth, parse_page_entries, parse_page_entry, path_to_filename, summarize_manifest,
    truncate, FetchError, PageEntry,
};
use cbor_web::digest::sha256_hex;
use cbor_web::value::{arr, b, t, u, CborValue};

#[test]
fn filename_of_root() {
    assert_eq!(path_to_filename("/"), "_index.cbor");
}

#[test]
fn filename_of_nested_paths() {
    assert_eq!(path_to_filename("/about"), "about.cbor");
    assert_eq!(path_to_filename("/blog/post"), "blog_post.cbor");
    assert_eq!(path_to_filename("/a_b/c"), "a%5Fb_c.cbor");
    assert_eq!(path_to_filename("//x"), "x.cbor");
    assert_eq!(path_to_filename("/docs/"), "docs_.cbor");
}

#[test]
fn filenames_of_distinct_clean_paths_differ() {
    let paths = ["/a/b", "/a_b", "/ab", "/a/b/c", "/a_b_c", "/a/b_c"];
    let names: Vec<String> = paths.iter().map(|p| path_to_filename(p)).collect();
    for i in 0..names.len() {
        for j in 0..names.len() {
            if i != j {
                assert_ne!(names[i], names[j]);
            }
        }
    }
}

#[test]
fn filename_collision_outside_clean_paths() {
    assert_eq!(path_to_filename("/a_b"), path_to_filename("/a%5Fb"));
}

#[test]
fn truncate_short_text_is_unchanged() {
    assert_eq!(truncate("hello", 10), "hello");
    assert_eq!(truncate("hello", 5), "hello");
}

#[test]
fn truncate_long_text() {
    assert_eq!(truncate("hello world", 5), "hello...");
    assert_eq!(truncate("abc", 0), "...");
}

#[test]
fn truncate_counts_bytes_cuts_chars() {
    // "é" is two bytes: four characters are eight bytes.
    assert_eq!(truncate("éééé", 6), "éééé"[..].chars().take(4).collect::<String>() + "...");
    assert_eq!(truncate("éé", 4), "éé");
}

#[test]
fn response_http_error() {
    assert_eq!(check_response(404, false, vec![0xD9, 0xD9, 0xF7], 100), Err(FetchError::Http(404)));
}

#[test]
fn response_too_large() {
    assert_eq!(check_response(200, true, vec![0xD9, 0xD9, 0xF7, 0], 3), Err(FetchError::TooLarge(4, 3)));
}

#[test]
fn response_not_self_described() {
    assert_eq!(check_response(200, true, vec![0xA0], 100), Err(FetchError::NotSelfDescribed));
    assert_eq!(check_response(200, true, vec![], 100), Err(FetchError::NotSelfDescribed));
}

#[test]
fn response_accepted() {
    assert_eq!(check_response(200, true, vec![0xD9, 0xD9, 0xF7, 0xA0], 4), Ok(vec![0xD9, 0xD9, 0xF7, 0xA0]));
}

fn entry(path: &str, access: Option<&str>, hash: Option<Vec<u8>>) -> CborValue {
    let mut e = vec![(t("path"), t(path))];
    if let Some(a) = access {
        e.push((t("access"), t(a)));
    }
    if let Some(h) = hash {
        e.push((t("hash"), CborValue::Bytes(h)));
    }
    canonical_map(e)
}

#[test]
fn page_entry_defaults() {
    let e = parse_page_entry(&entry("/a", None, None)).unwrap();
    assert_eq!(e, PageEntry { path: "/a".into(), access: "T2".into(), hash: None });
    let e = parse_page_entry(&entry("/b", Some("T0"), Some(vec![0xAB, 0x01]))).unwrap();
    assert_eq!(e, PageEntry { path: "/b".into(), access: "T0".into(), hash: Some("ab01".into()) });
    assert_eq!(parse_page_entry(&canonical_map(vec![(t("title"), t("x"))])), None);
    assert_eq!(parse_page_entry(&u(3)), None);
}

#[test]
fn page_entries_skip_non_entries() {
    let items = vec![entry("/a", None, None), u(1), entry("/b", Some("T1"), None)];
    let es = parse_page_entries(&items);
    assert_eq!(es.len(), 2);
    assert_eq!(es[0].path, "/a");
    assert_eq!(es[1].access, "T1");
}

#[test]
fn auth_tiers() {
    assert!(needs_auth("T0"));
    assert!(needs_auth("token"));
    assert!(!needs_auth("T1"));
    assert!(!needs_auth("T2"));
    assert!(!needs_auth("t0"));
}

#[test]
fn fetch_targets_skip_protected_pages() {
    let entries = vec![
        PageEntry { path: "/".into(), access: "T2".into(), hash: None },
        PageEntry { path: "/secret".into(), access: "T0".into(), hash: None },
        PageEntry { path: "/blog/a".into(), access: "T1".into(), hash: None },
        PageEntry { path: "/tok".into(), access: "token".into(), hash: None },
    ];
    assert_eq!(
        fetch_targets(&entries),
        vec![("/".to_string(), "_index.cbor".to_string()), ("/blog/a".to_string(), "blog_a.cbor".to_string())]
    );
}

#[test]
fn hash_mismatch_reports_both_hashes() {
    let bytes = b"page".to_vec();
    let good = sha256_hex(&bytes);
    assert_eq!(hash_mismatch(&Some(good.clone()), &bytes), None);
    assert_eq!(hash_mismatch(&None, &bytes), None);
    assert_eq!(hash_mismatch(&Some("00".into()), &bytes), Some(("00".to_string(), good)));
}

#[test]
fn sha256_hex_known_value() {
    assert_eq!(sha256_hex(b"abc"), "ba7816bf8f01cfea414140de5dae2223b00361a396177a9cb410ff61f20015ad");
    assert_eq!(sha256_hex(b""), "e3b0c44298fc1c149afbf4c8996fb92427ae41e4649b934ca495991b7852b855");
}

fn unified_doc() -> CborValue {
    canonical_map(vec![
        (u(0), t("cbor-web")),
        (u(1), u(3)),
        (u(2), canonical_map(vec![(t("domain"), t("ex.com")), (t("name"), t("Ex")), (t("languages"), arr(vec![t("en"), t("fr")]))])),
        (u(5), arr(vec![canonical_map(vec![(t("path"), t("/")), (t("title"), t("Home")), (t("size"), u(12))]), u(7)])),
        (u(6), canonical_map(vec![(t("total_pages"), u(1)), (t("bundle_available"), b(true))])),
    ])
}

#[test]
fn manifest_layout() {
    let doc = unified_doc();
    assert_eq!(document_type(&doc), Some("cbor-web"));
    assert!(is_unified(&doc));
    assert_eq!(layout_keys(true), (6, 5));
    assert_eq!(layout_keys(false), (5, 3));
    let f = manifest_format(&doc);
    assert_eq!(f.kind_name, "cbor-web (unified)");
    assert_eq!(f.spec_version, "v3.0");
    assert_eq!(inspect_keys(&f.kind_name), (6, 5));
    let old = canonical_map(vec![(u(0), t("cbor-web-manifest"))]);
    assert!(!is_unified(&old));
    assert_eq!(manifest_format(&old).spec_version, "v2.1");
    let other = canonical_map(vec![(u(0), t("zzz"))]);
    assert_eq!(manifest_format(&other).kind_name, "zzz");
    assert_eq!(manifest_format(&other).spec_version, "unknown");
    assert_eq!(manifest_format(&u(1)).kind_name, "unknown");
    assert_eq!(document_type(&u(1)), None);
}

#[test]
fn manifest_summary_reads_fields_with_defaults() {
    let s = summarize_manifest(&unified_doc());
    assert_eq!(s.domain, "ex.com");
    assert_eq!(s.name, "Ex");
    assert_eq!(s.description, "");
    assert_eq!(s.languages, vec!["en".to_string(), "fr".to_string()]);
    assert_eq!(s.default_language, "?");
    assert_eq!(s.total_pages, 1);
    assert_eq!(s.total_size, 0);
    assert!(s.bundle_available);
    assert_eq!(s.generator, "unknown");
    assert_eq!(s.pages.len(), 1);
    assert_eq!(s.pages[0].path, "/");
    assert_eq!(s.pages[0].lang, "?");
    assert_eq!(s.pages[0].access, "?");
    assert_eq!(s.pages[0].size, 12);
    assert_eq!(s.pages[0].title, "Home");
}

#[test]
fn manifest_summary_of_empty_document() {
    let s = summarize_manifest(&canonical_map(vec![]));
    assert_eq!(s.domain, "unknown");
    assert_eq!(s.name, "unknown");
    assert!(s.pages.is_empty());
    assert!(!s.bundle_available);
}
