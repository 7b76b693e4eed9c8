use cbor_web::crawl::{fetch_output, saved_page_name};
use cbor_web::json::JsonValue;
use cbor_web::portal::{
    admin_page_html, api_status_json, dashboard_html, invoice_document, invoices_page_html, login_page_html,
    register_page_html, zip_entry_allowed, GUEST_CARD, LOGIN_FORM, LOGOUT_COOKIE, PAGE_HEAD, REGISTER_CARD, STYLE,
    UPLOAD_SCRIPT,
};
use cbor_web::saas::{make_token, new_work_id, session_token, Invoice, User};

fn user(email: &str) -> User {
    User {
        email: email.into(),
        password_hash: String::new(),
        created_at: 0,
        upload_count: 3,
        total_pages: 42,
        plan: "Trial (5 free)".into(),
    }
}

fn invoice(id: &str, email: &str, paid: bool) -> Invoice {
    Invoice {
        id: id.into(),
        user_email: email.into(),
        domain: "ex.com".into(),
        pages: 7,
        cbor_size: 100,
        amount_eur: if paid { 0 } else { 49 },
        timestamp: 86400 * 365,
        paid,
    }
}

fn member<'a>(v: &'a JsonValue, name: &str) -> Option<&'a JsonValue> {
    match v {
        JsonValue::Object(m) => m.iter().rev().find(|(k, _)| k == name).map(|(_, v)| v),
        _ => None,
    }
}

#[test]
fn dashboard_for_user_and_visitor() {
    let page = dashboard_html(&Some(user("me@x.io")), "1.2.3");
    assert!(page.starts_with(PAGE_HEAD));
    assert!(page.contains("<title>text2cbor — SaaS</title>"));
    assert!(page.contains(STYLE));
    assert!(page.contains("<div class=\"n\">3</div><div class=\"l\">Uploads</div>"));
    assert!(page.contains("<div class=\"n\">42</div>"));
    assert!(page.contains("<div class=\"n\">Trial (5 free)</div>"));
    assert!(page.contains("me@x.io"));
    assert!(page.contains("text2cbor SaaS v1.2.3 — ExploDev 2026"));
    assert!(page.ends_with(&format!("<script>{}</script></body></html>", UPLOAD_SCRIPT)));
    let guest = dashboard_html(&None, "1.2.3");
    assert!(guest.contains(GUEST_CARD));
    assert!(guest.contains("/register"));
    assert!(!guest.contains("Uploads"));
}

#[test]
fn login_and_register_pages() {
    let plain = login_page_html("");
    assert!(plain.ends_with(LOGIN_FORM));
    assert!(!plain.contains("<div class=\"flash flash-err\">"));
    let with_error = login_page_html("Invalid email or password");
    assert!(with_error.contains("<div class=\"flash flash-err\">Invalid email or password</div>"));
    assert!(with_error.ends_with(LOGIN_FORM));
    let reg = register_page_html();
    assert!(reg.contains("<title>Register — text2cbor</title>"));
    assert!(reg.ends_with(REGISTER_CARD));
}

#[test]
fn invoice_list_of_a_user() {
    let invs = vec![invoice("INV-A", "me@x.io", true), invoice("INV-B", "other@x.io", false), invoice("INV-C", "me@x.io", false)];
    let page = invoices_page_html("me@x.io", &invs);
    assert!(page.contains("<tr><td><a href=\"/invoice/INV-A\">INV-A</a></td><td>ex.com</td><td>7 pages</td><td>0€</td><td><span class=\"badge badge-ok\">Paid</span></td><td>1971-01-01</td></tr>"));
    assert!(page.contains("<a href=\"/invoice/INV-C\">INV-C</a>"));
    assert!(page.contains("<td>49€</td><td><span class=\"badge badge-wait\">Pending</span>"));
    assert!(!page.contains("INV-B"));
    assert!(page.find("INV-A").unwrap() < page.find("INV-C").unwrap());
}

#[test]
fn administration_page() {
    let users = vec![user("admin@x.io"), user("b@x.io")];
    let invs = vec![invoice("INV-A", "b@x.io", true), invoice("INV-B", "b@x.io", false)];
    let page = admin_page_html("admin@x.io", &users, &invs);
    assert!(page.contains("<h2>Users (2)</h2>"));
    assert!(page.contains("<h2>Invoices (2)</h2>"));
    assert!(page.contains("<tr><td>b@x.io</td><td>3 uploads</td><td>42 pages</td><td>Trial (5 free)</td><td>1970-01-01</td></tr>"));
    assert!(page.contains("<tr><td>INV-A</td><td>b@x.io</td><td>7 pages</td><td>0€</td><td>✓</td><td>ex.com</td></tr>"));
    assert!(page.contains("action=\"/admin/invoice/INV-B/paid\""));
}

#[test]
fn invoice_document_text() {
    let doc = invoice_document(&invoice("INV-Z", "c@x.io", false));
    assert!(doc.starts_with("<!DOCTYPE html><html lang=\"fr\">"));
    assert!(doc.contains("<title>Invoice INV-Z — text2cbor</title>"));
    assert!(doc.contains("<h1>text2cbor SaaS — Invoice INV-Z</h1><div class=\"stamp\">PENDING — Payable by bank transfer</div>"));
    assert!(doc.contains("<tr><th>Date</th><td>1971-01-01</td></tr>"));
    assert!(doc.contains("HTML → CBOR-Web conversion — ex.com (7 pages)"));
    assert!(doc.contains("<td class=\"total\">49€</td>"));
    let paid = invoice_document(&invoice("INV-Y", "c@x.io", true));
    assert!(paid.contains("<div class=\"stamp\">PAID</div>"));
}

#[test]
fn status_answer() {
    let j = api_status_json("0.1.0", 12, 3, 2);
    assert!(matches!(member(&j, "status"), Some(JsonValue::Str(s)) if s == "ok"));
    assert!(matches!(member(&j, "version"), Some(JsonValue::Str(s)) if s == "0.1.0"));
    assert!(matches!(member(&j, "uptime_secs"), Some(JsonValue::Int(12))));
    assert!(matches!(member(&j, "uploads_processed"), Some(JsonValue::Int(3))));
    assert!(matches!(member(&j, "users"), Some(JsonValue::Int(2))));
}

#[test]
fn archive_entry_names() {
    assert!(zip_entry_allowed("index.html"));
    assert!(zip_entry_allowed("blog/post.html"));
    assert!(!zip_entry_allowed(""));
    assert!(!zip_entry_allowed("../etc/passwd"));
    assert!(!zip_entry_allowed("a/../../b"));
    assert!(!zip_entry_allowed("/abs.html"));
    assert!(!zip_entry_allowed("\\win.html"));
    assert_eq!(LOGOUT_COOKIE, "session=; HttpOnly; Path=/; Max-Age=0");
}

#[test]
fn session_tokens() {
    assert_eq!(session_token("abc", 5), "5568f31a66ff3997d9b68ed9d3c508df13609497f2ae69cc6b6afec9e71e267e");
    let a = make_token();
    let b = make_token();
    assert_eq!(a.len(), 64);
    assert_ne!(a, b);
    let w = new_work_id();
    assert_eq!(w.len(), 36);
    assert!(w.chars().all(|c| c.is_ascii_hexdigit() && !c.is_ascii_uppercase() || c == '-'));
}

#[test]
fn saved_page_names() {
    assert_eq!(saved_page_name("/"), "index.json");
    assert_eq!(saved_page_name("/blog/post"), "blog_post.json");
    assert_eq!(saved_page_name("//a//b"), "a__b.json");
    assert_eq!(saved_page_name("/_x"), "x.json");
    assert_eq!(saved_page_name(""), "index.json");
}

#[test]
fn fetch_output_document() {
    let j = fetch_output("ex.com", vec![("/a".into(), JsonValue::Int(1)), ("/b".into(), JsonValue::Int(2))]);
    assert!(matches!(member(&j, "site"), Some(JsonValue::Str(s)) if s == "ex.com"));
    assert!(matches!(member(&j, "pages_count"), Some(JsonValue::Int(2))));
    let pages = member(&j, "pages").unwrap();
    assert!(matches!(member(pages, "/b"), Some(JsonValue::Int(2))));
}
