use cbor_web::audit::audit_url;

#[test]
fn audit_answer_names_the_url() {
    assert_eq!(
        audit_url("https://example.com"),
        "{\"status\":\"analyzing\",\"url\":\"https://example.com\",\"message\":\"CBOR-Web Audit Engine v2.0 — Rust/WASM\"}"
    );
}

#[test]
fn audit_answer_with_empty_url() {
    assert_eq!(
        audit_url(""),
        "{\"status\":\"analyzing\",\"url\":\"\",\"message\":\"CBOR-Web Audit Engine v2.0 — Rust/WASM\"}"
    );
}
