//! The answer of the desktop audit tool to a request to audit a site.
use vstd::prelude::*;

verus! {

/// The JSON answer to a request to audit `url`: the status "analyzing", the
/// URL as given, and the name of the audit engine.
pub open spec fn audit_answer(url: Seq<char>) -> Seq<char> {
    "{\"status\":\"analyzing\",\"url\":\""@ + url + "\",\"message\":\"CBOR-Web Audit Engine v2.0 — Rust/WASM\"}"@
}

/// The answer to a request to audit `url` (`audit_answer`).
pub fn audit_url(url: &str) -> (r: String)
    ensures
        r@ == audit_answer(url@),
{
    let mut r = String::from_str("{\"status\":\"analyzing\",\"url\":\"");
    r.append(url);
    r.append("\",\"message\":\"CBOR-Web Audit Engine v2.0 — Rust/WASM\"}");
    r
}

} // verus!
