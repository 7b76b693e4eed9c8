//! The pages of the conversion service: the dashboard, the login and
//! registration forms, the invoice lists, the administration page, the
//! invoice document and the status answer.
use vstd::prelude::*;
use crate::saas::{User, Invoice, nav_html, nav_html_of};
use crate::text::{decimal, u64_decimal};
use crate::json::{JsonValue, JsonModel, obj_insert, object_model};

verus! {

/// The style sheet of the service's pages.
pub const STYLE: &'static str = "*{margin:0;padding:0;box-sizing:border-box}body{font-family:system-ui,monospace;background:#0a0a0a;color:#e0e0e0;padding:2rem}h1{color:#f97316;margin-bottom:.5rem}h1 span{color:#fff}h2{color:#f97316;margin:1.5rem 0 .8rem}.sub{color:#888;margin-bottom:.5rem}.nav{margin-bottom:2rem}.nav a{margin-right:1.5rem;color:#f97316;text-decoration:none}.nav a:hover{text-decoration:underline}.card{background:#111;border-radius:8px;padding:2rem;max-width:640px;margin-bottom:2rem}.card h2{color:#f97316;margin-bottom:1rem;font-size:1.1rem}.field{margin-bottom:1.2rem}.field label{display:block;color:#888;font-size:.8rem;margin-bottom:.4rem;text-transform:uppercase;letter-spacing:.05em}.field input{width:100%;padding:.6rem .8rem;background:#1a1a1a;border:1px solid #333;border-radius:6px;color:#e0e0e0;font-family:inherit;font-size:.9rem}.field input[type=file]::file-selector-button{padding:.4rem 1rem;margin-right:.8rem;background:#f97316;color:#000;border:none;border-radius:4px;cursor:pointer;font-weight:600}.btn{background:#f97316;color:#000;border:none;padding:.7rem 1.8rem;border-radius:6px;font-weight:700;font-size:.9rem;cursor:pointer;font-family:inherit}.btn:hover{opacity:.9}.btn:disabled{opacity:.4}.btn-sm{padding:.3rem .8rem;font-size:.75rem}.flash{background:#1a1a1a;border-left:3px solid #f97316;padding:1rem;margin-bottom:1rem}.flash-err{border-left-color:#ef4444}.statb{display:flex;gap:2rem;flex-wrap:wrap;margin:1rem 0}.stat{background:#111;padding:1rem;border-radius:8px;min-width:120px}.stat .n{font-size:2rem;color:#f97316;font-weight:700}.stat .l{color:#666;font-size:.8rem}table{width:100%;border-collapse:collapse;margin:1rem 0}th{text-align:left;padding:.5rem .8rem;color:#888;border-bottom:1px solid #333;font-size:.75rem;text-transform:uppercase}td{padding:.5rem .8rem;border-bottom:1px solid #1a1a1a;font-size:.85rem}.badge{padding:2px 8px;border-radius:4px;font-size:.7rem;font-weight:700}.badge-ok{background:#28c840;color:#000}.badge-wait{background:#f97316;color:#000}.foot{margin-top:3rem;color:#444;font-size:.7rem}#result{display:none;margin-top:1rem;background:#111;padding:1rem;border-radius:6px;border-left:3px solid #28c840}#result a{color:#f97316}code{color:#28c840;background:#1a1a1a;padding:1px 4px;border-radius:3px}";

/// The script of the dashboard that sends the upload form and starts the
/// download of the result.
pub const UPLOAD_SCRIPT: &'static str = "\nconst form=document.getElementById('uploadForm');if(form){form.onsubmit=async(e)=>{e.preventDefault();const d=new FormData(form);document.getElementById('progress').style.display='block';document.getElementById('result').style.display='none';try{const r=await fetch('/upload',{method:'POST',body:d});if(r.ok){const b=await r.blob();const u=URL.createObjectURL(b);const a=document.createElement('a');a.href=u;a.download='cbor-output.zip';a.click();URL.revokeObjectURL(u);document.getElementById('result').style.display='block';document.getElementById('result').innerHTML='<div style=\\\"color:#28c840\\\">Done. Download started. <a href=\\\"/invoices\\\">View invoice →</a></div>'}else{const t=await r.text();document.getElementById('result').style.display='block';document.getElementById('result').innerHTML='<div style=\\\"color:#ef4444\\\">Error: '+t+'</div>'}}catch(err){document.getElementById('result').style.display='block';document.getElementById('result').innerHTML='<div style=\\\"color:#ef4444\\\">Network error</div>'}finally{document.getElementById('progress').style.display='none'}}}";

/// The start of a page's head, up to its title.
pub const PAGE_HEAD: &'static str = "<!DOCTYPE html><html lang=\"en\"><head><meta charset=\"UTF-8\"><meta name=\"viewport\" content=\"width=device-width,initial-scale=1.0\"><title>";

/// The end of a page's head and the banner that opens its body.
pub const PAGE_BANNER: &'static str = "</style></head><body><h1>text2<span>cbor</span></h1>";

/// The upload form a signed-in user sees under the statistics.
pub const UPLOAD_CARD: &'static str = "</div><div class=\"l\">Plan</div></div>\n</div>\n<div class=\"card\">\n  <h2>Convert HTML → CBOR</h2>\n  <form id=\"uploadForm\" enctype=\"multipart/form-data\">\n    <div class=\"field\">\n      <label>Domain name</label>\n      <input type=\"text\" id=\"domain\" name=\"domain\" placeholder=\"example.com\" required>\n    </div>\n    <div class=\"field\">\n      <label>HTML site (.zip)</label>\n      <input type=\"file\" id=\"file\" name=\"file\" accept=\".zip\" required>\n    </div>\n    <button type=\"submit\" class=\"btn\">Convert to CBOR</button>\n  </form>\n  <div id=\"progress\" style=\"display:none;margin-top:1rem;color:#f97316\">Processing...</div>\n  <div id=\"result\"></div>\n</div>";

/// What a visitor who is not signed in sees.
pub const GUEST_CARD: &'static str = "<div class=\"flash\">Create an account to convert your website to CBOR-Web. Free trial — 5 conversions included.</div>\n<div class=\"card\"><h2>How it works</h2>\n<p>1. Register with your email</p><p>2. Upload your HTML site as a .zip</p><p>3. Download the CBOR-Web output</p><p>4. Deploy alongside your existing site</p>\n<p style=\"margin-top:1rem;color:#888\">After 5 conversions, invoice-based billing applies — you receive an invoice by email, payable by bank transfer.</p>\n</div>";

/// The login form.
pub const LOGIN_FORM: &'static str = "<form method=\"post\" action=\"/login\"><div class=\"field\"><label>Email</label><input name=\"email\" type=\"email\" required></div><div class=\"field\"><label>Password</label><input name=\"password\" type=\"password\" required></div><button class=\"btn\">Login</button></form><p style=\"margin-top:1rem;color:#888\">No account? <a href=\"/register\">Register →</a></p></div></body></html>";

/// The registration page's card.
pub const REGISTER_CARD: &'static str = "<div class=\"card\" style=\"max-width:400px\"><h2>Register</h2><form method=\"post\" action=\"/register\"><div class=\"field\"><label>Email</label><input name=\"email\" type=\"email\" required></div><div class=\"field\"><label>Password</label><input name=\"password\" type=\"password\" minlength=\"6\" required></div><button class=\"btn\">Create Account</button></form><p style=\"margin-top:1rem;color:#888\">Free trial — 5 conversions included. After that, invoice-based billing.</p><p style=\"color:#888\">Already have an account? <a href=\"/login\">Login →</a></p></div></body></html>";

/// The style sheet and heading of an invoice document, up to its number.
pub const INVOICE_STYLE: &'static str = " — text2cbor</title><style>body{font-family:Arial,sans-serif;padding:40px;max-width:700px;margin:auto}h1{color:#f97316}table{width:100%;border-collapse:collapse;margin:20px 0}th,td{padding:8px 12px;border:1px solid #ddd;text-align:left}th{background:#f5f5f5}.total{font-size:1.3em;font-weight:700}.footer{margin-top:40px;font-size:.8em;color:#888}.stamp{color:red;font-size:2em;transform:rotate(-15deg);position:absolute;margin-top:-40px;opacity:.5}</style></head><body><h1>text2cbor SaaS — Invoice ";

/// The end of an invoice document: the seller and the payment terms.
pub const INVOICE_FOOTER: &'static str = "</td></tr></table><div class=\"footer\"><p>Deltopide SL — CIF B05356202 — Calle San Juan 4, 03110 Mutxamel, Alicante, España</p><p>Payment by bank transfer — IBAN provided upon request</p><p>Invoice generated automatically by text2cbor SaaS — ExploDev 2026</p></div></body></html>";

/// The cookie that closes a session.
pub const LOGOUT_COOKIE: &'static str = "session=; HttpOnly; Path=/; Max-Age=0";

/// The calendar date (UTC) of a Unix time, as chrono formats it with
/// "%Y-%m-%d"; empty where chrono holds no date for the time.
pub uninterp spec fn utc_date_text(ts: u64) -> Seq<char>;

/// `chrono::DateTime::from_timestamp` of the time, formatted with "%Y-%m-%d",
/// empty where chrono gives no date. Claimed: the result is `utc_date_text` of
/// the time, a function of the time alone (UTC, no locale).
#[verifier::external_body]
fn utc_date(ts: u64) -> (r: String)
    ensures
        r@ == utc_date_text(ts),
{
    chrono::DateTime::from_timestamp(ts as i64, 0).map(|d| d.format("%Y-%m-%d").to_string()).unwrap_or_default()
}

fn put(r: &mut String, s: &str)
    ensures
        final(r)@ == old(r)@ + s@,
{
    r.append(s);
}

fn put_decimal(r: &mut String, n: u64)
    ensures
        final(r)@ == old(r)@ + decimal(n as nat),
{
    let d = u64_decimal(n);
    r.append(d.as_str());
}

/// The head of a page of the service with its title, and the banner.
pub open spec fn page_head_of(title: Seq<char>) -> Seq<char> {
    PAGE_HEAD@ + title + "</title><style>"@ + STYLE@ + PAGE_BANNER@
}

fn page_head(title: &str) -> (r: String)
    ensures
        r@ == page_head_of(title@),
{
    let mut r = String::from_str(PAGE_HEAD);
    put(&mut r, title);
    put(&mut r, "</title><style>");
    put(&mut r, STYLE);
    put(&mut r, PAGE_BANNER);
    r
}

// ── Dashboard ──

/// What a signed-in user sees: uploads, pages processed and plan, then the
/// upload form.
pub open spec fn user_panel_of(u: User) -> Seq<char> {
    "<div class=\"statb\">\n  <div class=\"stat\"><div class=\"n\">"@ + decimal(u.upload_count as nat) + "</div><div class=\"l\">Uploads</div></div>\n  <div class=\"stat\"><div class=\"n\">"@ + decimal(u.total_pages as nat) + "</div><div class=\"l\">Pages Processed</div></div>\n  <div class=\"stat\"><div class=\"n\">"@ + u.plan@ + UPLOAD_CARD@
}

/// The dashboard: the navigation bar for the user (or a visitor), the user's
/// panel (or the visitor's card), the footer with the version, the script.
pub open spec fn dashboard_of(user: Option<User>, version: Seq<char>) -> Seq<char> {
    page_head_of("text2cbor — SaaS"@) + "<p class=\"sub\">Convert HTML to CBOR-Web — binary web for AI agents</p>"@ + (match user {
        Some(u) => nav_html_of(true, u.email@),
        None => nav_html_of(false, ""@),
    }) + (match user {
        Some(u) => user_panel_of(u),
        None => GUEST_CARD@,
    }) + "<div class=\"foot\">text2cbor SaaS v"@ + version + " — ExploDev 2026</div><script>"@ + UPLOAD_SCRIPT@ + "</script></body></html>"@
}

fn user_panel(u: &User) -> (r: String)
    ensures
        r@ == user_panel_of(*u),
{
    let mut r = String::from_str("<div class=\"statb\">\n  <div class=\"stat\"><div class=\"n\">");
    put_decimal(&mut r, u.upload_count);
    put(&mut r, "</div><div class=\"l\">Uploads</div></div>\n  <div class=\"stat\"><div class=\"n\">");
    put_decimal(&mut r, u.total_pages);
    put(&mut r, "</div><div class=\"l\">Pages Processed</div></div>\n  <div class=\"stat\"><div class=\"n\">");
    put(&mut r, u.plan.as_str());
    put(&mut r, UPLOAD_CARD);
    r
}

/// The dashboard (`dashboard_of`) of the signed-in user, or of a visitor.
pub fn dashboard_html(user: &Option<User>, version: &str) -> (r: String)
    ensures
        r@ == dashboard_of(*user, version@),
{
    let mut r = page_head("text2cbor — SaaS");
    put(&mut r, "<p class=\"sub\">Convert HTML to CBOR-Web — binary web for AI agents</p>");
    match user {
        Some(u) => {
            let nav = nav_html(true, u.email.as_str());
            put(&mut r, nav.as_str());
            let panel = user_panel(u);
            put(&mut r, panel.as_str());
        },
        None => {
            let nav = nav_html(false, "");
            put(&mut r, nav.as_str());
            put(&mut r, GUEST_CARD);
        },
    }
    put(&mut r, "<div class=\"foot\">text2cbor SaaS v");
    put(&mut r, version);
    put(&mut r, " — ExploDev 2026</div><script>");
    put(&mut r, UPLOAD_SCRIPT);
    put(&mut r, "</script></body></html>");
    r
}

// ── Login and registration ──

/// The login page, with the error shown above the form where there is one.
pub open spec fn login_page_of(error: Seq<char>) -> Seq<char> {
    page_head_of("Login — text2cbor"@) + "<div class=\"card\" style=\"max-width:400px\"><h2>Login</h2>"@ + (if error.len() == 0 {
        Seq::empty()
    } else {
        "<div class=\"flash flash-err\">"@ + error + "</div>"@
    }) + LOGIN_FORM@
}

/// The login page (`login_page_of`).
pub fn login_page_html(error: &str) -> (r: String)
    ensures
        r@ == login_page_of(error@),
{
    let mut r = page_head("Login — text2cbor");
    put(&mut r, "<div class=\"card\" style=\"max-width:400px\"><h2>Login</h2>");
    if !error.is_empty() {
        let mut e = String::from_str("<div class=\"flash flash-err\">");
        put(&mut e, error);
        put(&mut e, "</div>");
        put(&mut r, e.as_str());
    } else {
        assert(r@ + Seq::<char>::empty() =~= r@);
    }
    put(&mut r, LOGIN_FORM);
    r
}

/// The registration page.
pub open spec fn register_page_of() -> Seq<char> {
    page_head_of("Register — text2cbor"@) + REGISTER_CARD@
}

/// The registration page (`register_page_of`).
pub fn register_page_html() -> (r: String)
    ensures
        r@ == register_page_of(),
{
    let mut r = page_head("Register — text2cbor");
    put(&mut r, REGISTER_CARD);
    r
}

// ── Invoices of a user ──

/// The badge of an invoice's state.
pub open spec fn status_badge(paid: bool) -> Seq<char> {
    if paid {
        "<span class=\"badge badge-ok\">Paid</span>"@
    } else {
        "<span class=\"badge badge-wait\">Pending</span>"@
    }
}

/// A row of the invoice list: number (a link), domain, pages, amount, state
/// and date.
pub open spec fn invoice_row_of(inv: Invoice) -> Seq<char> {
    "<tr><td><a href=\"/invoice/"@ + inv.id@ + "\">"@ + inv.id@ + "</a></td><td>"@ + inv.domain@ + "</td><td>"@ + decimal(inv.pages as nat) + " pages</td><td>"@ + decimal(
        inv.amount_eur as nat,
    ) + "€</td><td>"@ + status_badge(inv.paid) + "</td><td>"@ + utc_date_text(inv.timestamp) + "</td></tr>"@
}

/// The rows of the invoices of the user with the email, in order.
pub open spec fn invoice_rows_of(invs: Seq<Invoice>, email: Seq<char>) -> Seq<char>
    decreases invs.len(),
{
    if invs.len() == 0 {
        Seq::empty()
    } else {
        invoice_rows_of(invs.drop_last(), email) + if invs.last().user_email@ == email {
            invoice_row_of(invs.last())
        } else {
            Seq::empty()
        }
    }
}

/// The invoice list of the user with the email.
pub open spec fn invoices_page_of(email: Seq<char>, invs: Seq<Invoice>) -> Seq<char> {
    page_head_of("Invoices — text2cbor"@) + nav_html_of(true, email) + "<h2>Your Invoices</h2><table><tr><th>Invoice</th><th>Domain</th><th>Pages</th><th>Amount</th><th>Status</th><th>Date</th></tr>"@ + invoice_rows_of(invs, email) + "</table><p class=\"sub\" style=\"margin-top:1rem\">Invoices payable by bank transfer. You will receive the invoice by email after each conversion past the free trial.</p><div class=\"foot\">text2cbor SaaS — ExploDev 2026</div></body></html>"@
}

fn invoice_row(inv: &Invoice) -> (r: String)
    ensures
        r@ == invoice_row_of(*inv),
{
    let mut r = String::from_str("<tr><td><a href=\"/invoice/");
    put(&mut r, inv.id.as_str());
    put(&mut r, "\">");
    put(&mut r, inv.id.as_str());
    put(&mut r, "</a></td><td>");
    put(&mut r, inv.domain.as_str());
    put(&mut r, "</td><td>");
    put_decimal(&mut r, inv.pages as u64);
    put(&mut r, " pages</td><td>");
    put_decimal(&mut r, inv.amount_eur as u64);
    put(&mut r, "€</td><td>");
    let badge = if inv.paid { "<span class=\"badge badge-ok\">Paid</span>" } else { "<span class=\"badge badge-wait\">Pending</span>" };
    put(&mut r, badge);
    put(&mut r, "</td><td>");
    let date = utc_date(inv.timestamp);
    put(&mut r, date.as_str());
    put(&mut r, "</td></tr>");
    r
}

fn invoice_rows(invs: &Vec<Invoice>, email: &str) -> (r: String)
    ensures
        r@ == invoice_rows_of(invs@, email@),
{
    let mut r = String::new();
    let mut i: usize = 0;
    while i < invs.len()
        invariant
            i <= invs.len(),
            r@ == invoice_rows_of(invs@.take(i as int), email@),
        decreases invs.len() - i,
    {
        assert(invs@.take(i + 1).drop_last() =~= invs@.take(i as int));
        if crate::text::str_eq(invs[i].user_email.as_str(), email) {
            let row = invoice_row(&invs[i]);
            put(&mut r, row.as_str());
        } else {
            assert(r@ + Seq::<char>::empty() =~= r@);
        }
        i = i + 1;
    }
    assert(invs@.take(invs.len() as int) =~= invs@);
    r
}

/// The invoice list of the user with the email (`invoices_page_of`).
pub fn invoices_page_html(email: &str, invs: &Vec<Invoice>) -> (r: String)
    ensures
        r@ == invoices_page_of(email@, invs@),
{
    let mut r = page_head("Invoices — text2cbor");
    let nav = nav_html(true, email);
    put(&mut r, nav.as_str());
    put(&mut r, "<h2>Your Invoices</h2><table><tr><th>Invoice</th><th>Domain</th><th>Pages</th><th>Amount</th><th>Status</th><th>Date</th></tr>");
    let rows = invoice_rows(invs, email);
    put(&mut r, rows.as_str());
    put(&mut r, "</table><p class=\"sub\" style=\"margin-top:1rem\">Invoices payable by bank transfer. You will receive the invoice by email after each conversion past the free trial.</p><div class=\"foot\">text2cbor SaaS — ExploDev 2026</div></body></html>");
    r
}

// ── Administration ──

/// A row of the user list: email, uploads, pages, plan and date of
/// registration.
pub open spec fn user_row_of(u: User) -> Seq<char> {
    "<tr><td>"@ + u.email@ + "</td><td>"@ + decimal(u.upload_count as nat) + " uploads</td><td>"@ + decimal(u.total_pages as nat) + " pages</td><td>"@ + u.plan@ + "</td><td>"@
        + utc_date_text(u.created_at) + "</td></tr>"@
}

/// The rows of all users, in order.
pub open spec fn user_rows_of(us: Seq<User>) -> Seq<char>
    decreases us.len(),
{
    if us.len() == 0 {
        Seq::empty()
    } else {
        user_rows_of(us.drop_last()) + user_row_of(us.last())
    }
}

/// The state cell of an invoice: a button that marks it paid, or a check mark.
pub open spec fn paid_cell(inv: Invoice) -> Seq<char> {
    if !inv.paid {
        "<form method=\"post\" action=\"/admin/invoice/"@ + inv.id@ + "/paid\" style=\"display:inline\"><button class=\"btn btn-sm\">Mark Paid</button></form>"@
    } else {
        "✓"@
    }
}

/// A row of the administration's invoice list: number, customer, pages,
/// amount, state and domain.
pub open spec fn admin_row_of(inv: Invoice) -> Seq<char> {
    "<tr><td>"@ + inv.id@ + "</td><td>"@ + inv.user_email@ + "</td><td>"@ + decimal(inv.pages as nat) + " pages</td><td>"@ + decimal(inv.amount_eur as nat) + "€</td><td>"@
        + paid_cell(inv) + "</td><td>"@ + inv.domain@ + "</td></tr>"@
}

/// The rows of all invoices, in order.
pub open spec fn admin_rows_of(invs: Seq<Invoice>) -> Seq<char>
    decreases invs.len(),
{
    if invs.len() == 0 {
        Seq::empty()
    } else {
        admin_rows_of(invs.drop_last()) + admin_row_of(invs.last())
    }
}

/// The administration page: every user and every invoice, with their numbers.
pub open spec fn admin_page_of(email: Seq<char>, us: Seq<User>, invs: Seq<Invoice>) -> Seq<char> {
    page_head_of("Admin — text2cbor"@) + nav_html_of(true, email) + "<h2>Users ("@ + decimal(us.len()) + ")</h2><table><tr><th>Email</th><th>Uploads</th><th>Pages</th><th>Plan</th><th>Since</th></tr>"@ + user_rows_of(us) + "</table><h2>Invoices ("@ + decimal(
        invs.len(),
    ) + ")</h2><table><tr><th>ID</th><th>User</th><th>Pages</th><th>Amount</th><th>Paid</th><th>Domain</th></tr>"@ + admin_rows_of(invs) + "</table><div class=\"foot\">text2cbor Admin — ExploDev 2026</div></body></html>"@
}

fn user_row(u: &User) -> (r: String)
    ensures
        r@ == user_row_of(*u),
{
    let mut r = String::from_str("<tr><td>");
    put(&mut r, u.email.as_str());
    put(&mut r, "</td><td>");
    put_decimal(&mut r, u.upload_count);
    put(&mut r, " uploads</td><td>");
    put_decimal(&mut r, u.total_pages);
    put(&mut r, " pages</td><td>");
    put(&mut r, u.plan.as_str());
    put(&mut r, "</td><td>");
    let date = utc_date(u.created_at);
    put(&mut r, date.as_str());
    put(&mut r, "</td></tr>");
    r
}

fn admin_row(inv: &Invoice) -> (r: String)
    ensures
        r@ == admin_row_of(*inv),
{
    let mut r = String::from_str("<tr><td>");
    put(&mut r, inv.id.as_str());
    put(&mut r, "</td><td>");
    put(&mut r, inv.user_email.as_str());
    put(&mut r, "</td><td>");
    put_decimal(&mut r, inv.pages as u64);
    put(&mut r, " pages</td><td>");
    put_decimal(&mut r, inv.amount_eur as u64);
    put(&mut r, "€</td><td>");
    if !inv.paid {
        let mut cell = String::from_str("<form method=\"post\" action=\"/admin/invoice/");
        put(&mut cell, inv.id.as_str());
        put(&mut cell, "/paid\" style=\"display:inline\"><button class=\"btn btn-sm\">Mark Paid</button></form>");
        put(&mut r, cell.as_str());
    } else {
        put(&mut r, "✓");
    }
    put(&mut r, "</td><td>");
    put(&mut r, inv.domain.as_str());
    put(&mut r, "</td></tr>");
    r
}

/// The administration page (`admin_page_of`) for the administrator with the
/// email.
pub fn admin_page_html(email: &str, users: &Vec<User>, invs: &Vec<Invoice>) -> (r: String)
    ensures
        r@ == admin_page_of(email@, users@, invs@),
{
    let mut r = page_head("Admin — text2cbor");
    let nav = nav_html(true, email);
    put(&mut r, nav.as_str());
    put(&mut r, "<h2>Users (");
    put_decimal(&mut r, users.len() as u64);
    put(&mut r, ")</h2><table><tr><th>Email</th><th>Uploads</th><th>Pages</th><th>Plan</th><th>Since</th></tr>");
    let mut rows = String::new();
    let mut i: usize = 0;
    while i < users.len()
        invariant
            i <= users.len(),
            rows@ == user_rows_of(users@.take(i as int)),
        decreases users.len() - i,
    {
        assert(users@.take(i + 1).drop_last() =~= users@.take(i as int));
        let row = user_row(&users[i]);
        put(&mut rows, row.as_str());
        i = i + 1;
    }
    assert(users@.take(users.len() as int) =~= users@);
    put(&mut r, rows.as_str());
    put(&mut r, "</table><h2>Invoices (");
    put_decimal(&mut r, invs.len() as u64);
    put(&mut r, ")</h2><table><tr><th>ID</th><th>User</th><th>Pages</th><th>Amount</th><th>Paid</th><th>Domain</th></tr>");
    let mut irows = String::new();
    let mut k: usize = 0;
    while k < invs.len()
        invariant
            k <= invs.len(),
            irows@ == admin_rows_of(invs@.take(k as int)),
        decreases invs.len() - k,
    {
        assert(invs@.take(k + 1).drop_last() =~= invs@.take(k as int));
        let row = admin_row(&invs[k]);
        put(&mut irows, row.as_str());
        k = k + 1;
    }
    assert(invs@.take(invs.len() as int) =~= invs@);
    put(&mut r, irows.as_str());
    put(&mut r, "</table><div class=\"foot\">text2cbor Admin — ExploDev 2026</div></body></html>");
    r
}

// ── Invoice document ──

/// The state an invoice document shows.
pub open spec fn invoice_state_text(paid: bool) -> Seq<char> {
    if paid {
        "PAID"@
    } else {
        "PENDING — Payable by bank transfer"@
    }
}

/// The invoice document: number, state, date, customer, service (domain and
/// pages), amount and state again, then the seller and the terms.
pub open spec fn invoice_document_of(inv: Invoice) -> Seq<char> {
    "<!DOCTYPE html><html lang=\"fr\"><head><meta charset=\"UTF-8\"><title>Invoice "@ + inv.id@ + INVOICE_STYLE@ + inv.id@ + "</h1><div class=\"stamp\">"@ + invoice_state_text(inv.paid) + "</div><table><tr><th>Date</th><td>"@ + utc_date_text(inv.timestamp) + "</td></tr><tr><th>Customer</th><td>"@
        + inv.user_email@ + "</td></tr><tr><th>Service</th><td>HTML → CBOR-Web conversion — "@ + inv.domain@ + " ("@ + decimal(inv.pages as nat) + " pages)</td></tr><tr><th>Amount</th><td class=\"total\">"@ + decimal(inv.amount_eur as nat) + "€</td></tr><tr><th>Status</th><td>"@
        + invoice_state_text(inv.paid) + INVOICE_FOOTER@
}

/// The invoice document (`invoice_document_of`).
pub fn invoice_document(inv: &Invoice) -> (r: String)
    ensures
        r@ == invoice_document_of(*inv),
{
    let state = if inv.paid { "PAID" } else { "PENDING — Payable by bank transfer" };
    let mut r = String::from_str("<!DOCTYPE html><html lang=\"fr\"><head><meta charset=\"UTF-8\"><title>Invoice ");
    put(&mut r, inv.id.as_str());
    put(&mut r, INVOICE_STYLE);
    put(&mut r, inv.id.as_str());
    put(&mut r, "</h1><div class=\"stamp\">");
    put(&mut r, state);
    put(&mut r, "</div><table><tr><th>Date</th><td>");
    let date = utc_date(inv.timestamp);
    put(&mut r, date.as_str());
    put(&mut r, "</td></tr><tr><th>Customer</th><td>");
    put(&mut r, inv.user_email.as_str());
    put(&mut r, "</td></tr><tr><th>Service</th><td>HTML → CBOR-Web conversion — ");
    put(&mut r, inv.domain.as_str());
    put(&mut r, " (");
    put_decimal(&mut r, inv.pages as u64);
    put(&mut r, " pages)</td></tr><tr><th>Amount</th><td class=\"total\">");
    put_decimal(&mut r, inv.amount_eur as u64);
    put(&mut r, "€</td></tr><tr><th>Status</th><td>");
    put(&mut r, state);
    put(&mut r, INVOICE_FOOTER);
    r
}

// ── Status and uploads ──

/// The status answer: state, version, uptime, uploads processed and users.
pub open spec fn api_status_of(version: Seq<char>, uptime_secs: u64, uploads: u64, users: nat) -> JsonModel {
    JsonModel::Object(
        Map::empty().insert("status"@, JsonModel::Str("ok"@)).insert("version"@, JsonModel::Str(version)).insert(
            "uptime_secs"@,
            JsonModel::Int(uptime_secs as int),
        ).insert("uploads_processed"@, JsonModel::Int(uploads as int)).insert("users"@, JsonModel::Int(users as int)),
    )
}

/// The status answer (`api_status_of`).
pub fn api_status_json(version: &str, uptime_secs: u64, uploads: u64, users: usize) -> (r: JsonValue)
    ensures
        r@ == api_status_of(version@, uptime_secs, uploads, users as nat),
{
    let mut m: Vec<(String, JsonValue)> = Vec::new();
    assert(object_model(m@) =~= Map::<Seq<char>, JsonModel>::empty());
    obj_insert(&mut m, "status", JsonValue::Str(String::from_str("ok")));
    obj_insert(&mut m, "version", JsonValue::Str(String::from_str(version)));
    obj_insert(&mut m, "uptime_secs", JsonValue::Int(uptime_secs as i128));
    obj_insert(&mut m, "uploads_processed", JsonValue::Int(uploads as i128));
    obj_insert(&mut m, "users", JsonValue::Int(users as i128));
    JsonValue::Object(m)
}

/// An entry of an uploaded archive is extracted unless its name is empty,
/// holds "..", or starts with a slash or a backslash.
pub open spec fn zip_entry_allowed_of(name: Seq<char>) -> bool {
    !(name.len() == 0 || crate::text::seq_contains(name, ".."@) || crate::text::seq_starts_with(name, "/"@)
        || crate::text::seq_starts_with(name, "\\"@))
}

/// Whether an entry of an uploaded archive is extracted (`zip_entry_allowed_of`).
pub fn zip_entry_allowed(name: &str) -> (r: bool)
    ensures
        r == zip_entry_allowed_of(name@),
{
    !(name.is_empty() || crate::text::str_contains(name, "..") || crate::text::str_starts_with(name, "/")
        || crate::text::str_starts_with(name, "\\"))
}

} // verus!
