use cbor_web::json::JsonValue;
use cbor_web::saas::{
    auth_cookie, get_cookie, hash_password, invoice_id, is_valid_domain, nav_html, pick_binary, text2cbor_binary,
    Accounts, LoginError, RegisterError, CONVERSION_PRICE_EUR, FREE_CONVERSIONS, SESSION_SECONDS,
};
use cbor_web::server::{
    client_ip, diff_document, diff_payload, diff_unavailable, doleance_entry, etag_of, is_cbor_content_type,
    is_safe_filename, is_valid_base, record_doleance, token_allows, RateLimiter, DOLEANCE_LOG_DROP,
    DOLEANCE_LOG_LIMIT, WINDOW_NANOS,
};
use cbor_web::telemetry::Telemetry;
use cbor_web::crawl::parse_cbor_document;

fn member<'a>(v: &'a JsonValue, name: &str) -> Option<&'a JsonValue> {
    match v {
        JsonValue::Object(m) => m.iter().rev().find(|(k, _)| k == name).map(|(_, v)| v),
        _ => None,
    }
}

// ── Rate limiting ──

#[test]
fn rate_limit_within_one_window() {
    let mut l = RateLimiter::new(2);
    assert!(l.check("1.2.3.4", 0));
    assert!(l.check("1.2.3.4", 10));
    assert!(!l.check("1.2.3.4", 20));
    assert!(!l.check("1.2.3.4", WINDOW_NANOS - 1));
}

#[test]
fn rate_limit_window_resets() {
    let mut l = RateLimiter::new(1);
    assert!(l.check("a", 5));
    assert!(!l.check("a", 6));
    assert!(l.check("a", 5 + WINDOW_NANOS));
    assert!(!l.check("a", 6 + WINDOW_NANOS));
}

#[test]
fn rate_limit_per_address() {
    let mut l = RateLimiter::new(1);
    assert!(l.check("a", 0));
    assert!(l.check("b", 0));
    assert!(!l.check("a", 1));
    assert!(!l.check("b", 1));
}

#[test]
fn rate_limit_zero_refuses() {
    let mut l = RateLimiter::new(0);
    assert!(!l.check("a", 0));
    assert!(!l.check("a", 1));
    assert!(l.check("a", WINDOW_NANOS));
}

#[test]
fn rate_limit_never_passes_more_than_max_in_a_window() {
    let mut l = RateLimiter::new(3);
    let passed = (0..100u64).filter(|i| l.check("x", *i * 1000)).count();
    assert_eq!(passed, 3);
}

// ── Requests ──

#[test]
fn client_ip_from_headers() {
    assert_eq!(client_ip(Some(" 10.0.0.1 , 10.0.0.2")), "10.0.0.1");
    assert_eq!(client_ip(Some("10.0.0.9")), "10.0.0.9");
    assert_eq!(client_ip(None), "unknown");
}

#[test]
fn token_gate() {
    assert!(token_allows(None, None));
    assert!(token_allows(None, Some("x")));
    assert!(token_allows(Some("k"), Some("k")));
    assert!(!token_allows(Some("k"), Some("j")));
    assert!(!token_allows(Some("k"), None));
    assert!(token_allows(Some(""), None));
}

#[test]
fn safe_filenames() {
    assert!(is_safe_filename("blog_post.cbor"));
    assert!(is_safe_filename("a-b.cbor"));
    assert!(!is_safe_filename("../etc/passwd"));
    assert!(!is_safe_filename("a b"));
    assert!(is_safe_filename(""));
}

#[test]
fn diff_bases() {
    let h = "a".repeat(64);
    assert!(is_valid_base(&h));
    assert!(is_valid_base(&"F".repeat(64)));
    assert!(!is_valid_base(&"a".repeat(63)));
    assert!(!is_valid_base(&"g".repeat(64)));
}

#[test]
fn etag_quotes_sha() {
    assert_eq!(etag_of(b"hello"), "\"2cf24dba5fb0a30e26e83b2ac5b9e29e1b161e5c1fa7425e73043362938b9824\"");
}

#[test]
fn cbor_content_type() {
    assert!(is_cbor_content_type(Some("application/cbor")));
    assert!(!is_cbor_content_type(Some("application/json")));
    assert!(!is_cbor_content_type(None));
}

#[test]
fn doleance_log_drops_oldest() {
    let mut log: Vec<JsonValue> = (0..DOLEANCE_LOG_LIMIT as i128).map(JsonValue::Int).collect();
    record_doleance(&mut log, JsonValue::Int(-1));
    assert_eq!(log.len(), DOLEANCE_LOG_LIMIT + 1 - DOLEANCE_LOG_DROP);
    assert!(matches!(log[0], JsonValue::Int(n) if n == DOLEANCE_LOG_DROP as i128));
    assert!(matches!(log.last(), Some(JsonValue::Int(-1))));
    let mut small = vec![JsonValue::Null];
    record_doleance(&mut small, JsonValue::Bool(true));
    assert_eq!(small.len(), 2);
}

#[test]
fn doleance_entry_of_cbor_body() {
    let body = vec![0xA1, 0x61, 0x61, 0x01]; // {"a": 1}
    let e = doleance_entry(&body, 77);
    assert!(matches!(member(&e, "received_at"), Some(JsonValue::Int(77))));
    assert!(matches!(member(&e, "size"), Some(JsonValue::Int(4))));
    assert!(matches!(member(&e, "hash"), Some(JsonValue::Str(h)) if h.len() == 64));
    let d = member(&e, "doleance").expect("parsed");
    assert!(matches!(member(d, "a"), Some(JsonValue::Int(1))));
    assert!(member(&e, "parse_error").is_none());
}

#[test]
fn doleance_entry_of_bad_body() {
    let e = doleance_entry(&[0xFF, 0xFF], 1);
    assert!(matches!(member(&e, "parse_error"), Some(JsonValue::Str(_))));
    assert!(member(&e, "doleance").is_none());
}

#[test]
fn diff_only_for_current_base() {
    let h = "ab".repeat(32);
    assert!(diff_document(&h, &"cd".repeat(32)).is_none());
    assert!(diff_payload(&h, &"cd".repeat(32)).is_none());
    let bytes = diff_payload(&h, &h).expect("no-change diff");
    let doc = parse_cbor_document(&bytes).expect("decodes");
    let d = diff_document(&h, &h).unwrap();
    assert!(cbor_web::value::values_equal(&doc, &d));
    let j = cbor_web::json::cbor_to_json(&doc);
    assert!(matches!(member(&j, "current_hash"), Some(JsonValue::Str(s)) if *s == h));
    let stats = member(&j, "stats").unwrap();
    assert!(matches!(member(stats, "pages_added"), Some(JsonValue::Int(0))));
}

#[test]
fn diff_unavailable_answer() {
    let j = diff_unavailable("x", "y");
    assert!(matches!(member(&j, "error"), Some(JsonValue::Str(s)) if s == "Diff not available"));
    assert!(matches!(member(&j, "base"), Some(JsonValue::Str(s)) if s == "x"));
    assert!(matches!(member(&j, "current"), Some(JsonValue::Str(s)) if s == "y"));
}

// ── Telemetry ──

#[test]
fn telemetry_records_scans() {
    let mut t = Telemetry::new();
    t.record_scan("a.com", 100, "1.0");
    t.record_scan("b.com", 200, "1.1");
    t.record_scan("a.com", 300, "1.1");
    assert_eq!(t.scans, 3);
    assert_eq!(t.first_use, 100);
    assert_eq!(t.last_use, 300);
    assert_eq!(t.domains, vec!["a.com".to_string(), "b.com".to_string()]);
    assert_eq!(t.version, "1.1");
}

#[test]
fn telemetry_tracks_crawls() {
    let mut t = Telemetry::new();
    t.track_crawl("x.org", 7200, "2.0");
    t.track_crawl("x.org", 1800, "2.0");
    assert_eq!(t.crawls, 2);
    assert_eq!(t.scans, 2);
    assert_eq!(t.total_seconds, 9000);
    assert!(t.first_use > 0);
    let r = t.report();
    assert!(matches!(member(&r, "total_time_hours"), Some(JsonValue::Int(2))));
    assert!(matches!(member(&r, "unique_domains"), Some(JsonValue::Int(1))));
    assert!(matches!(member(&r, "crawls"), Some(JsonValue::Int(2))));
    assert!(matches!(member(&r, "version"), Some(JsonValue::Str(v)) if v == "2.0"));
}

#[test]
fn telemetry_track_scan_keeps_first_use() {
    let mut t = Telemetry::new();
    t.record_scan("a", 5, "v");
    t.track_scan("b", "v");
    assert_eq!(t.first_use, 5);
    assert!(t.last_use >= 5);
}

// ── Accounts ──

#[test]
fn password_hash_is_salted_sha256() {
    assert_eq!(hash_password("secret1"), "8ecef6a642c802a50ea90092fd38ed6ec9d4fd550684c784124668d17cce1448");
}

#[test]
fn cookie_text() {
    assert_eq!(auth_cookie("tok"), "session=tok; HttpOnly; SameSite=Lax; Path=/; Max-Age=86400");
    assert_eq!(get_cookie(Some("a=1; session=abc; b=2")), "abc");
    assert_eq!(get_cookie(Some("session=x;session=y")), "x");
    assert_eq!(get_cookie(Some("a=1")), "");
    assert_eq!(get_cookie(None), "");
}

#[test]
fn navigation_bar() {
    let n = nav_html(true, "me@x.io");
    assert!(n.contains("me@x.io"));
    assert!(n.contains("/logout"));
    let n = nav_html(false, "me@x.io");
    assert!(n.contains("/login"));
    assert!(!n.contains("me@x.io"));
}

#[test]
fn domain_names() {
    assert!(is_valid_domain("example.com"));
    assert!(is_valid_domain("a-b.c"));
    assert!(!is_valid_domain("localhost"));
    assert!(!is_valid_domain("-a.com"));
    assert!(!is_valid_domain("a..com"));
    assert!(!is_valid_domain(""));
    assert!(!is_valid_domain("a_b.com"));
    assert!(!is_valid_domain(&format!("{}.com", "a".repeat(64))));
}

#[test]
fn converter_choice() {
    assert_eq!(pick_binary(&vec![true, true]), "../text2cbor/target/release/text2cbor");
    assert_eq!(pick_binary(&vec![false, true]), "/usr/local/bin/text2cbor");
    assert_eq!(pick_binary(&vec![false, false]), "text2cbor");
    let b = text2cbor_binary();
    assert!(["../text2cbor/target/release/text2cbor", "/usr/local/bin/text2cbor", "text2cbor"].contains(&b.as_str()));
}

#[test]
fn register_and_login() {
    let mut a = Accounts::new();
    assert_eq!(a.register(" Me@X.io ", "secret1", "t1".into(), 1000), Ok(()));
    assert_eq!(a.users[0].email, "me@x.io");
    assert_eq!(a.users[0].plan, "Trial (5 free)");
    assert_eq!(a.session_user("t1", 1000), Some(0));
    assert_eq!(a.session_user("t1", 1000 + SESSION_SECONDS), None);
    assert_eq!(a.register("me@x.io", "secret1", "t2".into(), 1000), Err(RegisterError::Taken));
    assert_eq!(a.register("nobody", "secret1", "t2".into(), 1000), Err(RegisterError::Invalid));
    assert_eq!(a.register("x@y", "123", "t2".into(), 1000), Err(RegisterError::Invalid));
    assert_eq!(a.login("ME@x.io", "secret1", "t3".into(), 2000), Ok(()));
    assert_eq!(a.sessions.last().unwrap().expires_at, 2000 + SESSION_SECONDS);
    assert_eq!(a.login("me@x.io", "wrong", "t4".into(), 2000), Err(LoginError::Invalid));
    assert_eq!(a.login("", "x", "t4".into(), 2000), Err(LoginError::Missing));
    assert_eq!(a.login("me@x.io", "", "t4".into(), 2000), Err(LoginError::Missing));
    assert!(a.is_admin("me@x.io"));
    assert!(!a.is_admin("other@x.io"));
}

#[test]
fn logout_closes_sessions() {
    let mut a = Accounts::new();
    a.register("a@b.c", "secret1", "tok".into(), 0).unwrap();
    a.logout("tok");
    assert_eq!(a.session_user("tok", 1), None);
    let before = a.sessions.len();
    a.logout("");
    assert_eq!(a.sessions.len(), before);
}

#[test]
fn invoice_identifiers() {
    assert_eq!(invoice_id("abcdef12-3456"), "INV-ABCDEF12");
    assert_eq!(invoice_id("abcdefgh"), "INV-ABCDEFGH");
}

#[test]
fn conversions_are_free_then_paid() {
    let mut a = Accounts::new();
    a.register("a@b.c", "secret1", "tok".into(), 0).unwrap();
    for k in 0..(FREE_CONVERSIONS + 1) {
        a.record_conversion("a@b.c", "ex.com", &format!("work{:04}-x", k), 3, 100, 50);
    }
    assert_eq!(a.invoices.len() as u64, FREE_CONVERSIONS + 1);
    assert!(a.invoices[0].paid);
    assert_eq!(a.invoices[0].amount_eur, 0);
    let last = a.invoices.last().unwrap();
    assert!(!last.paid);
    assert_eq!(last.amount_eur, CONVERSION_PRICE_EUR);
    assert_eq!(last.id, "INV-WORK0005");
    assert_eq!(a.users[0].upload_count, FREE_CONVERSIONS + 1);
    assert_eq!(a.users[0].total_pages, 3 * (FREE_CONVERSIONS + 1));
    assert_eq!(a.invoices_of("a@b.c").len() as u64, FREE_CONVERSIONS + 1);
    assert!(a.invoices_of("z@b.c").is_empty());
    assert!(a.mark_invoice_paid("INV-WORK0005"));
    assert!(a.invoices.last().unwrap().paid);
    assert!(!a.mark_invoice_paid("INV-NONE"));
}
