//! The conversion service's accounts: users, sessions and invoices, the
//! password hash, the session cookie, the navigation bar and the rules of
//! registration, login, logout, uploads and payment.
use vstd::prelude::*;
use vstd::utf8::encode_utf8;
use crate::text::{seq_starts_with, seq_contains, trim_ws, lowercase_of, str_eq, str_starts_with, str_contains, chars_of, push_char};
use crate::digest::{hex_text, sha256_spec};
use crate::describe::{cut_ok, byte_prefix};

verus! {

// ── Helpers ──

/// The stored hash of a password: the lowercase hexadecimal SHA-256 of
/// "cbor-web-salt:" and the password.
pub open spec fn password_hash_of(pw: Seq<char>) -> Seq<char> {
    hex_text(sha256_spec(encode_utf8("cbor-web-salt:"@ + pw)), false)
}

/// The stored hash of a password (`password_hash_of`).
pub fn hash_password(pw: &str) -> (r: String)
    ensures
        r@ == password_hash_of(pw@),
{
    let mut salted = String::from_str("cbor-web-salt:");
    salted.append(pw);
    crate::digest::sha256_hex(salted.as_str().as_bytes())
}

/// A character of a UUID's hyphenated text: a lowercase hexadecimal digit or
/// a hyphen.
pub open spec fn uuid_char(c: char) -> bool {
    ('0' <= c && c <= '9') || ('a' <= c && c <= 'f') || c == '-'
}

/// `uuid::Uuid::new_v4()` in its hyphenated text form (`to_string`). Claimed,
/// as the crate documents that form: 36 characters, each a lowercase
/// hexadecimal digit or a hyphen. The value itself is random.
#[verifier::external_body]
fn uuid_v4_text() -> (r: String)
    ensures
        r@.len() == 36,
        forall|i: int| 0 <= i < 36 ==> uuid_char(#[trigger] r@[i]),
{
    uuid::Uuid::new_v4().to_string()
}

/// Nanoseconds since the Unix epoch on the system clock (`SystemTime::now()`);
/// 0 where the clock stands before the epoch. Nothing is claimed of the value.
#[verifier::external_body]
fn unix_now_nanos() -> u128 {
    std::time::SystemTime::now().duration_since(std::time::UNIX_EPOCH).map(|d| d.as_nanos()).unwrap_or(0)
}

/// A fresh identifier for a conversion: a random UUID in hyphenated form.
pub fn new_work_id() -> (r: String)
    ensures
        r@.len() == 36,
        forall|i: int| 0 <= i < 36 ==> uuid_char(#[trigger] r@[i]),
{
    uuid_v4_text()
}

/// The session token drawn from a UUID text and a time in nanoseconds: the
/// lowercase hexadecimal SHA-256 of "session:", the UUID, ':' and the time.
pub open spec fn drawn_token_of(uuid: Seq<char>, nanos: u128) -> Seq<char> {
    hex_text(sha256_spec(encode_utf8("session:"@ + uuid + ":"@ + crate::text::decimal(nanos as nat))), false)
}

/// The session token drawn from a UUID text and a time (`drawn_token_of`).
pub fn session_token(uuid: &str, nanos: u128) -> (r: String)
    ensures
        r@ == drawn_token_of(uuid@, nanos),
{
    let mut seed = String::from_str("session:");
    seed.append(uuid);
    seed.append(":");
    seed.append(crate::text::u128_decimal(nanos).as_str());
    crate::digest::sha256_hex(seed.as_str().as_bytes())
}

/// A fresh session token: `drawn_token_of` a random UUID and the current time.
pub fn make_token() -> (r: String)
    ensures
        exists|uuid: Seq<char>, nanos: u128| uuid.len() == 36 && r@ == drawn_token_of(uuid, nanos),
{
    let uuid = uuid_v4_text();
    let nanos = unix_now_nanos();
    session_token(uuid.as_str(), nanos)
}

/// The cookie that opens a session for a day.
pub open spec fn auth_cookie_of(token: Seq<char>) -> Seq<char> {
    "session="@ + token + "; HttpOnly; SameSite=Lax; Path=/; Max-Age=86400"@
}

/// The cookie that opens a session for a day (`auth_cookie_of`).
pub fn auth_cookie(token: &str) -> (r: String)
    ensures
        r@ == auth_cookie_of(token@),
{
    let mut r = String::from_str("session=");
    r.append(token);
    r.append("; HttpOnly; SameSite=Lax; Path=/; Max-Age=86400");
    r
}

/// The navigation bar: dashboard, invoices, API, GitHub, the user's email and
/// logout for a signed-in user; login, register and GitHub otherwise.
pub open spec fn nav_html_of(authenticated: bool, email: Seq<char>) -> Seq<char> {
    if authenticated {
        "<div class=\"nav\"><a href=\"/\">Dashboard</a><a href=\"/invoices\">Invoices</a><a href=\"/api/status\">API</a><a href=\"https://github.com/ploteddie-bit/cbor-web\">GitHub</a><span style=\"float:right;color:#888;font-size:.8rem\">"@
            + email
            + "</span><a href=\"/logout\" style=\"float:right;margin-right:1rem\">Logout</a></div>"@
    } else {
        "<div class=\"nav\"><a href=\"/login\">Login</a><a href=\"/register\">Register</a><a href=\"https://github.com/ploteddie-bit/cbor-web\">GitHub</a></div>"@
    }
}

/// The navigation bar (`nav_html_of`).
pub fn nav_html(authenticated: bool, email: &str) -> (r: String)
    ensures
        r@ == nav_html_of(authenticated, email@),
{
    if authenticated {
        let mut r = String::from_str(
            "<div class=\"nav\"><a href=\"/\">Dashboard</a><a href=\"/invoices\">Invoices</a><a href=\"/api/status\">API</a><a href=\"https://github.com/ploteddie-bit/cbor-web\">GitHub</a><span style=\"float:right;color:#888;font-size:.8rem\">",
        );
        r.append(email);
        r.append("</span><a href=\"/logout\" style=\"float:right;margin-right:1rem\">Logout</a></div>");
        r
    } else {
        String::from_str(
            "<div class=\"nav\"><a href=\"/login\">Login</a><a href=\"/register\">Register</a><a href=\"https://github.com/ploteddie-bit/cbor-web\">GitHub</a></div>",
        )
    }
}

/// The first of the pieces whose trimmed form starts with "session=".
pub open spec fn session_piece(ps: Seq<Seq<char>>) -> Option<Seq<char>>
    decreases ps.len(),
{
    if ps.len() == 0 {
        None
    } else if seq_starts_with(trim_ws(ps[0]), "session="@) {
        Some(trim_ws(ps[0]))
    } else {
        session_piece(ps.subrange(1, ps.len() as int))
    }
}

/// The session token of a `Cookie` header: the value of its first `session=`
/// cookie; empty where there is none.
pub open spec fn session_token_of(header: Option<Seq<char>>) -> Seq<char> {
    let h = match header {
        Some(h) => h,
        None => Seq::empty(),
    };
    match session_piece(crate::text::pieces(h, ';')) {
        Some(p) => p.skip(8),
        None => Seq::empty(),
    }
}

/// The session token of a `Cookie` header (`session_token_of`); the header's
/// text where it is one.
pub fn get_cookie(header: Option<&str>) -> (r: String)
    ensures
        r@ == session_token_of(match header {
            Some(h) => Some(h@),
            None => None,
        }),
{
    let h = match header {
        Some(h) => h,
        None => "",
    };
    proof {
        reveal_strlit("");
        reveal_strlit("session=");
    }
    let ghost hv = match header {
        Some(x) => x@,
        None => Seq::<char>::empty(),
    };
    assert(h@ == hv);
    let ps = crate::text::split_pieces(h, ';');
    let ghost pv = ps@.map_values(|p: String| p@);
    assert(pv.skip(0) =~= pv);
    let mut i: usize = 0;
    while i < ps.len()
        invariant
            i <= ps.len(),
            pv == ps@.map_values(|p: String| p@),
            pv == crate::text::pieces(h@, ';'),
            h@ == hv,
            hv == (match header {
                Some(x) => x@,
                None => Seq::<char>::empty(),
            }),
            session_piece(pv) == session_piece(pv.skip(i as int)),
            "session="@.len() == 8,
        decreases ps.len() - i,
    {
        assert(pv.skip(i as int).subrange(1, pv.skip(i as int).len() as int) =~= pv.skip(i + 1));
        assert(pv.skip(i as int)[0] == ps@[i as int]@);
        let c = crate::text::trim(ps[i].as_str());
        if str_starts_with(c.as_str(), "session=") {
            let cs = chars_of(c.as_str());
            let r = crate::text::string_of_range(&cs, 8, cs.len());
            assert(r@ =~= c@.skip(8));
            return r;
        }
        i = i + 1;
    }
    assert(pv.skip(ps.len() as int) =~= Seq::<Seq<char>>::empty());
    String::new()
}

/// An ASCII letter or digit.
pub open spec fn ascii_alnum(c: char) -> bool {
    ('0' <= c && c <= '9') || ('a' <= c && c <= 'z') || ('A' <= c && c <= 'Z')
}

/// A label of a domain name: 1 to 63 bytes of ASCII letters, digits and
/// hyphens, no hyphen at either end.
pub open spec fn valid_label(l: Seq<char>) -> bool {
    &&& l.len() > 0
    &&& encode_utf8(l).len() <= 63
    &&& l[0] != '-'
    &&& l.last() != '-'
    &&& forall|i: int| 0 <= i < l.len() ==> ascii_alnum(#[trigger] l[i]) || l[i] == '-'
}

/// A domain name: 1 to 253 bytes, labels between dots all valid, at least
/// one dot.
pub open spec fn valid_domain(s: Seq<char>) -> bool {
    &&& s.len() > 0
    &&& encode_utf8(s).len() <= 253
    &&& forall|i: int| 0 <= i < crate::text::pieces(s, '.').len() ==> valid_label(#[trigger] crate::text::pieces(s, '.')[i])
    &&& s.contains('.')
}

fn valid_label_exec(l: &str) -> (r: bool)
    ensures
        r == valid_label(l@),
{
    let cs = chars_of(l);
    if cs.len() == 0 || l.as_bytes().len() > 63 || cs[0] == '-' || cs[cs.len() - 1] == '-' {
        return false;
    }
    let mut i: usize = 0;
    while i < cs.len()
        invariant
            i <= cs.len(),
            cs@ == l@,
            forall|j: int| 0 <= j < i ==> ascii_alnum(#[trigger] cs@[j]) || cs@[j] == '-',
        decreases cs.len() - i,
    {
        let c = cs[i];
        let ok = ('0' <= c && c <= '9') || ('a' <= c && c <= 'z') || ('A' <= c && c <= 'Z') || c == '-';
        if !ok {
            return false;
        }
        i = i + 1;
    }
    true
}

/// Whether a text is a domain name (`valid_domain`).
pub fn is_valid_domain(s: &str) -> (r: bool)
    ensures
        r == valid_domain(s@),
{
    if s.is_empty() || s.as_bytes().len() > 253 {
        return false;
    }
    let labels = crate::text::split_pieces(s, '.');
    let ghost lv = labels@.map_values(|p: String| p@);
    let mut i: usize = 0;
    while i < labels.len()
        invariant
            i <= labels.len(),
            lv == labels@.map_values(|p: String| p@),
            lv == crate::text::pieces(s@, '.'),
            forall|j: int| 0 <= j < i ==> valid_label(#[trigger] lv[j]),
        decreases labels.len() - i,
    {
        assert(lv[i as int] == labels@[i as int]@);
        if !valid_label_exec(labels[i].as_str()) {
            return false;
        }
        i = i + 1;
    }
    let cs = chars_of(s);
    let mut k: usize = 0;
    assert(s@.len() > 0);
    while k < cs.len()
        invariant
            k <= cs.len(),
            cs@ == s@,
            s@.len() > 0,
            encode_utf8(s@).len() <= 253,
            lv == crate::text::pieces(s@, '.'),
            lv.len() == labels.len(),
            forall|j: int| 0 <= j < labels.len() ==> valid_label(#[trigger] lv[j]),
            forall|j: int| 0 <= j < k ==> cs@[j] != '.',
        decreases cs.len() - k,
    {
        if cs[k] == '.' {
            assert(s@.contains('.')) by {
                assert(s@[k as int] == '.');
            }
            return true;
        }
        k = k + 1;
    }
    false
}

// ── The converter ──

/// Whether a file exists at a path (`Path::exists`). Nothing is claimed of
/// the answer: it depends on the file system.
#[verifier::external_body]
fn path_exists(p: &str) -> bool {
    std::path::Path::new(p).exists()
}

/// Where the converter is looked for, in order.
pub open spec fn binary_candidates() -> Seq<Seq<char>> {
    seq!["../text2cbor/target/release/text2cbor"@, "/usr/local/bin/text2cbor"@]
}

/// The converter to run, given which candidates exist: the first that does,
/// else "text2cbor" from the search path.
pub open spec fn binary_choice(found: Seq<bool>) -> Seq<char> {
    if found.len() > 0 && found[0] {
        binary_candidates()[0]
    } else if found.len() > 1 && found[1] {
        binary_candidates()[1]
    } else {
        "text2cbor"@
    }
}

/// The converter to run (`binary_choice`).
pub fn pick_binary(found: &Vec<bool>) -> (r: String)
    ensures
        r@ == binary_choice(found@),
{
    if found.len() > 0 && found[0] {
        String::from_str("../text2cbor/target/release/text2cbor")
    } else if found.len() > 1 && found[1] {
        String::from_str("/usr/local/bin/text2cbor")
    } else {
        String::from_str("text2cbor")
    }
}

/// The converter to run: the first candidate found on this machine, else
/// "text2cbor" from the search path.
pub fn text2cbor_binary() -> (r: String)
    ensures
        exists|found: Seq<bool>| found.len() == 2 && r@ == binary_choice(found),
{
    let mut found: Vec<bool> = Vec::new();
    found.push(path_exists("../text2cbor/target/release/text2cbor"));
    found.push(path_exists("/usr/local/bin/text2cbor"));
    pick_binary(&found)
}

} // verus!

verus! {

// ── Accounts ──

/// A user of the service.
#[derive(Debug, Clone)]
pub struct User {
    pub email: String,
    pub password_hash: String,
    pub created_at: u64,
    pub upload_count: u64,
    pub total_pages: u64,
    pub plan: String,
}

/// An open session.
#[derive(Debug, Clone)]
pub struct Session {
    pub token: String,
    pub email: String,
    pub expires_at: u64,
}

/// An invoice for a conversion.
#[derive(Debug, Clone)]
pub struct Invoice {
    pub id: String,
    pub user_email: String,
    pub domain: String,
    pub pages: usize,
    pub cbor_size: usize,
    pub amount_eur: u32,
    pub timestamp: u64,
    pub paid: bool,
}

/// The service's users, sessions and invoices.
#[derive(Debug, Clone)]
pub struct Accounts {
    pub users: Vec<User>,
    pub sessions: Vec<Session>,
    pub invoices: Vec<Invoice>,
}

/// How long a session lasts, in seconds.
pub const SESSION_SECONDS: u64 = 86400;

/// How many conversions are free.
pub const FREE_CONVERSIONS: u64 = 5;

/// The price of a conversion past the free ones, in euros.
pub const CONVERSION_PRICE_EUR: u32 = 49;

/// The position of the first user with the email.
pub open spec fn user_index(users: Seq<User>, email: Seq<char>) -> Option<int>
    decreases users.len(),
{
    if users.len() == 0 {
        None
    } else if users[0].email@ == email {
        Some(0)
    } else {
        match user_index(users.subrange(1, users.len() as int), email) {
            Some(i) => Some(i + 1),
            None => None,
        }
    }
}

/// The email of the first session with the token that has not expired at
/// `now`.
pub open spec fn session_email(sessions: Seq<Session>, token: Seq<char>, now: u64) -> Option<Seq<char>>
    decreases sessions.len(),
{
    if sessions.len() == 0 {
        None
    } else if sessions[0].token@ == token && sessions[0].expires_at > now {
        Some(sessions[0].email@)
    } else {
        session_email(sessions.subrange(1, sessions.len() as int), token, now)
    }
}

/// The position of the user of a live session.
pub open spec fn session_user_index(a: Accounts, token: Seq<char>, now: u64) -> Option<int> {
    match session_email(a.sessions@, token, now) {
        Some(e) => user_index(a.users@, e),
        None => None,
    }
}

proof fn lemma_user_index(users: Seq<User>, email: Seq<char>)
    ensures
        user_index(users, email) matches Some(i) ==> 0 <= i < users.len() && users[i].email@ == email,
    decreases users.len(),
{
    if users.len() > 0 {
        lemma_user_index(users.subrange(1, users.len() as int), email);
    }
}

fn find_user(users: &Vec<User>, email: &str) -> (r: Option<usize>)
    ensures
        match r {
            Some(i) => user_index(users@, email@) == Some(i as int),
            None => user_index(users@, email@) is None,
        },
{
    let mut i: usize = 0;
    assert(users@.skip(0) =~= users@);
    while i < users.len()
        invariant
            i <= users.len(),
            forall|j: int| 0 <= j < i ==> (#[trigger] users@[j]).email@ != email@,
            user_index(users@, email@) == match user_index(users@.skip(i as int), email@) {
                Some(k) => Some(k + i),
                None => None,
            },
        decreases users.len() - i,
    {
        assert(users@.skip(i as int).subrange(1, users@.skip(i as int).len() as int) =~= users@.skip(i + 1));
        assert(users@.skip(i as int)[0] == users@[i as int]);
        if str_eq(users[i].email.as_str(), email) {
            return Some(i);
        }
        i = i + 1;
    }
    assert(users@.skip(i as int) =~= Seq::<User>::empty());
    None
}

fn find_session_email(sessions: &Vec<Session>, token: &str, now: u64) -> (r: Option<String>)
    ensures
        match r {
            Some(e) => session_email(sessions@, token@, now) == Some(e@),
            None => session_email(sessions@, token@, now) is None,
        },
{
    let mut i: usize = 0;
    assert(sessions@.skip(0) =~= sessions@);
    while i < sessions.len()
        invariant
            i <= sessions.len(),
            session_email(sessions@, token@, now) == session_email(sessions@.skip(i as int), token@, now),
        decreases sessions.len() - i,
    {
        assert(sessions@.skip(i as int).subrange(1, sessions@.skip(i as int).len() as int) =~= sessions@.skip(i + 1));
        assert(sessions@.skip(i as int)[0] == sessions@[i as int]);
        if str_eq(sessions[i].token.as_str(), token) && sessions[i].expires_at > now {
            return Some(sessions[i].email.clone());
        }
        i = i + 1;
    }
    assert(sessions@.skip(i as int) =~= Seq::<Session>::empty());
    None
}

/// Why a login is refused.
#[derive(Debug, PartialEq, Eq)]
pub enum LoginError {
    /// No email or no password was given.
    Missing,
    /// No user has that email and password.
    Invalid,
}

/// Why a registration is refused.
#[derive(Debug, PartialEq, Eq)]
pub enum RegisterError {
    /// The email holds no `@`, or the password is shorter than 6 bytes.
    Invalid,
    /// A user has that email already.
    Taken,
}

/// A registration is refused for an empty email, an email without `@`, or a
/// password shorter than 6 bytes.
pub open spec fn registration_refused(email: Seq<char>, password: Seq<char>) -> bool {
    email.len() == 0 || encode_utf8(password).len() < 6 || !email.contains('@')
}

/// Some user has the email read from the form and the password's hash: a
/// login with them succeeds.
pub open spec fn can_log_in(users: Seq<User>, email_raw: Seq<char>, password: Seq<char>) -> bool {
    exists|i: int|
        0 <= i < users.len() && (#[trigger] users[i]).email@ == form_email(email_raw) && users[i].password_hash@
            == password_hash_of(password)
}

/// No session holds the token.
pub open spec fn token_unknown(sessions: Seq<Session>, token: Seq<char>) -> bool {
    forall|i: int| 0 <= i < sessions.len() ==> (#[trigger] sessions[i]).token@ != token
}

/// A token that no session holds opens no session.
proof fn lemma_unknown_token(sessions: Seq<Session>, token: Seq<char>, now: u64)
    requires
        token_unknown(sessions, token),
    ensures
        session_email(sessions, token, now) is None,
    decreases sessions.len(),
{
    if sessions.len() > 0 {
        let rest = sessions.subrange(1, sessions.len() as int);
        assert forall|i: int| 0 <= i < rest.len() implies (#[trigger] rest[i]).token@ != token by {
            assert(rest[i] == sessions[i + 1]);
        }
        lemma_unknown_token(rest, token, now);
    }
}

/// How an email is read from a form: lowercase, without white space around.
pub open spec fn form_email(raw: Seq<char>) -> Seq<char> {
    trim_ws(lowercase_of(raw))
}

fn normalize_email(raw: &str) -> (r: String)
    ensures
        r@ == form_email(raw@),
{
    let lower = crate::text::to_lowercase(raw);
    crate::text::trim(lower.as_str())
}

impl Accounts {
    /// No accounts yet.
    pub fn new() -> (r: Self)
        ensures
            r.users@.len() == 0 && r.sessions@.len() == 0 && r.invoices@.len() == 0,
    {
        Accounts { users: Vec::new(), sessions: Vec::new(), invoices: Vec::new() }
    }

    /// The position of the user of a live session with the token at `now`
    /// (`session_user_index`).
    pub fn session_user(&self, token: &str, now: u64) -> (r: Option<usize>)
        ensures
            match r {
                Some(i) => session_user_index(*self, token@, now) == Some(i as int) && i < self.users@.len(),
                None => session_user_index(*self, token@, now) is None,
            },
    {
        match find_session_email(&self.sessions, token, now) {
            Some(e) => {
                let r = find_user(&self.users, e.as_str());
                proof {
                    lemma_user_index(self.users@, e@);
                }
                r
            },
            None => None,
        }
    }

    /// Opens a session for a user who gives a known email and its password:
    /// the session holds the token and lasts a day from `now`.
    pub fn login(&mut self, email_raw: &str, password: &str, token: String, now: u64) -> (r: Result<(), LoginError>)
        requires
            now <= u64::MAX - SESSION_SECONDS,
        ensures
            form_email(email_raw@).len() == 0 || password@.len() == 0 ==> r matches Err(LoginError::Missing),
            form_email(email_raw@).len() > 0 && password@.len() > 0 ==> (r is Ok <==> can_log_in(
                old(self).users@,
                email_raw@,
                password@,
            )),
            r is Err ==> *final(self) == *old(self),
            r is Ok ==> final(self).users@ == old(self).users@ && final(self).invoices@ == old(self).invoices@
                && final(self).sessions@.len() == old(self).sessions@.len() + 1
                && final(self).sessions@.drop_last() == old(self).sessions@
                && final(self).sessions@.last().token@ == token@
                && final(self).sessions@.last().email@ == form_email(email_raw@)
                && final(self).sessions@.last().expires_at == now + SESSION_SECONDS,
    {
        let email = normalize_email(email_raw);
        if crate::site::is_empty(&email) || password.is_empty() {
            return Err(LoginError::Missing);
        }
        let hash = hash_password(password);
        let mut i: usize = 0;
        while i < self.users.len()
            invariant
                i <= self.users.len(),
                self.users@ == old(self).users@,
                *self == *old(self),
                now <= u64::MAX - SESSION_SECONDS,
                email@ == form_email(email_raw@),
                email@.len() > 0,
                password@.len() > 0,
                hash@ == password_hash_of(password@),
                forall|j: int| 0 <= j < i ==> !((#[trigger] self.users@[j]).email@ == email@ && self.users@[j].password_hash@ == hash@),
            decreases self.users.len() - i,
        {
            if str_eq(self.users[i].email.as_str(), email.as_str()) && str_eq(self.users[i].password_hash.as_str(), hash.as_str()) {
                let ghost before = self.sessions@;
                self.sessions.push(Session { token, email, expires_at: now + SESSION_SECONDS });
                assert(self.sessions@.drop_last() =~= before);
                return Ok(());
            }
            i = i + 1;
        }
        Err(LoginError::Invalid)
    }

    /// Registers a new user (trial plan, no uploads, created at `now`) and
    /// opens a session for a day: the email must hold `@` and the password be
    /// 6 bytes or more; the email must be new.
    pub fn register(&mut self, email_raw: &str, password: &str, token: String, now: u64) -> (r: Result<(), RegisterError>)
        requires
            now <= u64::MAX - SESSION_SECONDS,
        ensures
            registration_refused(form_email(email_raw@), password@) ==> r == Err::<(), RegisterError>(RegisterError::Invalid),
            !registration_refused(form_email(email_raw@), password@) && user_index(old(self).users@, form_email(email_raw@)) is Some
                ==> r == Err::<(), RegisterError>(RegisterError::Taken),
            !registration_refused(form_email(email_raw@), password@) && user_index(old(self).users@, form_email(email_raw@)) is None
                ==> r is Ok,
            r is Err ==> *final(self) == *old(self),
            r is Ok ==> final(self).users@.len() == old(self).users@.len() + 1 && final(self).users@.drop_last()
                == old(self).users@ && final(self).users@.last().email@ == form_email(email_raw@)
                && final(self).users@.last().password_hash@ == password_hash_of(password@)
                && final(self).users@.last().created_at == now && final(self).users@.last().upload_count == 0
                && final(self).users@.last().total_pages == 0 && final(self).users@.last().plan@ == "Trial (5 free)"@
                && final(self).invoices@ == old(self).invoices@
                && final(self).sessions@.len() == old(self).sessions@.len() + 1
                && final(self).sessions@.drop_last() == old(self).sessions@
                && final(self).sessions@.last().token@ == token@
                && final(self).sessions@.last().email@ == form_email(email_raw@)
                && final(self).sessions@.last().expires_at == now + SESSION_SECONDS,
            r is Ok ==> can_log_in(final(self).users@, email_raw@, password@),
    {
        let email = normalize_email(email_raw);
        let has_at = {
            let cs = chars_of(email.as_str());
            let mut k: usize = 0;
            let mut found = false;
            while k < cs.len()
                invariant
                    k <= cs.len(),
                    cs@ == email@,
                    found == exists|j: int| 0 <= j < k && cs@[j] == '@',
                decreases cs.len() - k,
            {
                if cs[k] == '@' {
                    found = true;
                }
                k = k + 1;
            }
            assert(found == email@.contains('@'));
            found
        };
        if crate::site::is_empty(&email) || password.as_bytes().len() < 6 || !has_at {
            return Err(RegisterError::Invalid);
        }
        match find_user(&self.users, email.as_str()) {
            Some(_) => {
                return Err(RegisterError::Taken);
            },
            None => {},
        }
        let ghost users0 = self.users@;
        let ghost sessions0 = self.sessions@;
        self.users.push(User {
            email: email.clone(),
            password_hash: hash_password(password),
            created_at: now,
            upload_count: 0,
            total_pages: 0,
            plan: String::from_str("Trial (5 free)"),
        });
        self.sessions.push(Session { token, email, expires_at: now + SESSION_SECONDS });
        assert(self.users@.drop_last() =~= users0);
        assert(self.sessions@.drop_last() =~= sessions0);
        assert(self.users@[self.users@.len() - 1].email@ == form_email(email_raw@));
        Ok(())
    }

    /// Closes every session with the token; an empty token closes nothing.
    pub fn logout(&mut self, token: &str)
        ensures
            final(self).users@ == old(self).users@,
            final(self).invoices@ == old(self).invoices@,
            token@.len() == 0 ==> final(self).sessions@ == old(self).sessions@,
            token@.len() > 0 ==> final(self).sessions@ == old(self).sessions@.filter(|s: Session| s.token@ != token@),
            token@.len() > 0 ==> forall|now: u64| #[trigger] session_email(final(self).sessions@, token@, now) is None,
    {
        if token.is_empty() {
            return;
        }
        let ghost all = self.sessions@;
        let mut kept: Vec<Session> = Vec::new();
        let mut rest: Vec<Session> = Vec::new();
        std::mem::swap(&mut rest, &mut self.sessions);
        assert(rest@ == all);
        assert(all.take(0) =~= Seq::<Session>::empty());
        assert(all.skip(0) =~= all);
        while rest.len() > 0
            invariant
                kept@ == all.take(all.len() - rest@.len()).filter(|s: Session| s.token@ != token@),
                rest@ == all.skip(all.len() - rest@.len()),
                rest@.len() <= all.len(),
            decreases rest.len(),
        {
            let ghost pos = all.len() - rest@.len();
            let s = rest.remove(0);
            proof {
                assert(s == all[pos]);
                assert(all.take(pos + 1).drop_last() =~= all.take(pos));
                assert(rest@ =~= all.skip(pos + 1));
                assert(all.take(pos + 1) =~= all.take(pos).push(all[pos]));
                all.take(pos).lemma_filter_push(all[pos], |s: Session| s.token@ != token@);
            }
            if !str_eq(s.token.as_str(), token) {
                kept.push(s);
            }
        }
        assert(all.take(all.len() as int) =~= all);
        proof {
            let pred = |s: Session| s.token@ != token@;
            assert forall|i: int| 0 <= i < kept@.len() implies (#[trigger] kept@[i]).token@ != token@ by {
                all.lemma_filter_pred(pred, i);
            }
            assert forall|now: u64| #[trigger] session_email(kept@, token@, now) is None by {
                lemma_unknown_token(kept@, token@, now);
            }
        }
        self.sessions = kept;
    }
}

/// The uppercase form of a text, as `str::to_uppercase` gives it.
pub uninterp spec fn uppercase_of(s: Seq<char>) -> Seq<char>;

/// `str::to_uppercase`. Claimed: the result is `uppercase_of` of the text, a
/// function of the text alone.
#[verifier::external_body]
fn to_uppercase(s: &str) -> (r: String)
    ensures
        r@ == uppercase_of(s@),
{
    s.to_uppercase()
}

/// The identifier of the invoice of a conversion: "INV-" and the first 8
/// bytes of the conversion's identifier, in uppercase.
pub open spec fn invoice_id_of(work_id: Seq<char>) -> Seq<char> {
    "INV-"@ + uppercase_of(byte_prefix(work_id, 8))
}

/// The identifier of the invoice of a conversion (`invoice_id_of`); the
/// conversion's identifier holds 8 bytes or more, none of its characters
/// across the 8th.
pub fn invoice_id(work_id: &str) -> (r: String)
    requires
        encode_utf8(work_id@).len() >= 8,
        cut_ok(work_id@, 8),
    ensures
        r@ == invoice_id_of(work_id@),
{
    let head = crate::describe::cut_text(work_id, 8);
    proof {
        if encode_utf8(work_id@).len() == 8 {
            vstd::utf8::encode_utf8_decode_utf8(work_id@);
            assert(encode_utf8(work_id@).subrange(0, 8) =~= encode_utf8(work_id@));
        }
    }
    let mut r = String::from_str("INV-");
    r.append(to_uppercase(head.as_str()).as_str());
    r
}

/// The first invoice with the identifier.
pub open spec fn invoice_index(invoices: Seq<Invoice>, id: Seq<char>) -> Option<int>
    decreases invoices.len(),
{
    if invoices.len() == 0 {
        None
    } else if invoices[0].id@ == id {
        Some(0)
    } else {
        match invoice_index(invoices.subrange(1, invoices.len() as int), id) {
            Some(i) => Some(i + 1),
            None => None,
        }
    }
}

impl Accounts {
    /// Records a conversion for the user with the email: an invoice (free and
    /// paid for the first 5 conversions, 49 euros and pending after) for the
    /// domain, pages and size, dated `now`; the user's uploads and pages grow.
    pub fn record_conversion(
        &mut self,
        email: &str,
        domain: &str,
        work_id: &str,
        page_count: usize,
        cbor_size: usize,
        now: u64,
    )
        requires
            encode_utf8(work_id@).len() >= 8,
            cut_ok(work_id@, 8),
            user_index(old(self).users@, email@) matches Some(i) ==> old(self).users@[i].upload_count < u64::MAX
                && old(self).users@[i].total_pages + page_count <= u64::MAX,
        ensures
            final(self).sessions@ == old(self).sessions@,
            final(self).invoices@.len() == old(self).invoices@.len() + 1,
            final(self).invoices@.drop_last() == old(self).invoices@,
            ({
                let inv = final(self).invoices@.last();
                let count = match user_index(old(self).users@, email@) {
                    Some(i) => old(self).users@[i].upload_count,
                    None => 0u64,
                };
                &&& inv.id@ == invoice_id_of(work_id@)
                &&& inv.user_email@ == email@
                &&& inv.domain@ == domain@
                &&& inv.pages == page_count
                &&& inv.cbor_size == cbor_size
                &&& inv.amount_eur == (if count < FREE_CONVERSIONS { 0 } else { CONVERSION_PRICE_EUR })
                &&& inv.timestamp == now
                &&& inv.paid == (count < FREE_CONVERSIONS)
            }),
            final(self).users@.len() == old(self).users@.len(),
            forall|j: int| 0 <= j < old(self).users@.len() && user_index(old(self).users@, email@) != Some(j) ==> #[trigger] final(self).users@[j] == old(self).users@[j],
            user_index(old(self).users@, email@) matches Some(i) ==> {
                &&& final(self).users@[i].email == old(self).users@[i].email
                &&& final(self).users@[i].password_hash == old(self).users@[i].password_hash
                &&& final(self).users@[i].created_at == old(self).users@[i].created_at
                &&& final(self).users@[i].plan == old(self).users@[i].plan
                &&& final(self).users@[i].upload_count == old(self).users@[i].upload_count + 1
                &&& final(self).users@[i].total_pages == old(self).users@[i].total_pages + page_count
            },
    {
        let found = find_user(&self.users, email);
        proof {
            lemma_user_index(self.users@, email@);
        }
        let count = match found {
            Some(i) => self.users[i].upload_count,
            None => 0,
        };
        let id = invoice_id(work_id);
        let ghost inv0 = self.invoices@;
        self.invoices.push(Invoice {
            id,
            user_email: String::from_str(email),
            domain: String::from_str(domain),
            pages: page_count,
            cbor_size,
            amount_eur: if count < FREE_CONVERSIONS { 0 } else { CONVERSION_PRICE_EUR },
            timestamp: now,
            paid: count < FREE_CONVERSIONS,
        });
        assert(self.invoices@.drop_last() =~= inv0);
        match found {
            Some(i) => {
                let ghost users0 = self.users@;
                let mut u = self.users.remove(i);
                u.upload_count = u.upload_count + 1;
                u.total_pages = u.total_pages + page_count as u64;
                self.users.insert(i, u);
                assert forall|j: int| 0 <= j < users0.len() && j != i implies #[trigger] self.users@[j] == users0[j] by {
                }
            },
            None => {},
        }
    }

    /// Marks the first invoice with the identifier as paid; reports whether
    /// there was one.
    pub fn mark_invoice_paid(&mut self, id: &str) -> (r: bool)
        ensures
            final(self).users@ == old(self).users@,
            final(self).sessions@ == old(self).sessions@,
            r == (invoice_index(old(self).invoices@, id@) is Some),
            match invoice_index(old(self).invoices@, id@) {
                Some(i) => final(self).invoices@.len() == old(self).invoices@.len() && (forall|j: int|
                    0 <= j < old(self).invoices@.len() && j != i ==> #[trigger] final(self).invoices@[j] == old(self).invoices@[j])
                    && final(self).invoices@[i].paid && final(self).invoices@[i].id == old(self).invoices@[i].id
                    && final(self).invoices@[i].user_email == old(self).invoices@[i].user_email
                    && final(self).invoices@[i].domain == old(self).invoices@[i].domain
                    && final(self).invoices@[i].pages == old(self).invoices@[i].pages
                    && final(self).invoices@[i].cbor_size == old(self).invoices@[i].cbor_size
                    && final(self).invoices@[i].amount_eur == old(self).invoices@[i].amount_eur
                    && final(self).invoices@[i].timestamp == old(self).invoices@[i].timestamp,
                None => final(self).invoices@ == old(self).invoices@,
            },
    {
        let mut i: usize = 0;
        let ghost all = self.invoices@;
        assert(all.skip(0) =~= all);
        while i < self.invoices.len()
            invariant
                i <= self.invoices.len(),
                self.invoices@ == all,
                all == old(self).invoices@,
                self.users@ == old(self).users@,
                self.sessions@ == old(self).sessions@,
                invoice_index(all, id@) == match invoice_index(all.skip(i as int), id@) {
                    Some(k) => Some(k + i),
                    None => None,
                },
            decreases self.invoices.len() - i,
        {
            assert(all.skip(i as int).subrange(1, all.skip(i as int).len() as int) =~= all.skip(i + 1));
            assert(all.skip(i as int)[0] == all[i as int]);
            if str_eq(self.invoices[i].id.as_str(), id) {
                let mut inv = self.invoices.remove(i);
                inv.paid = true;
                self.invoices.insert(i, inv);
                assert forall|j: int| 0 <= j < all.len() && j != i implies #[trigger] self.invoices@[j] == all[j] by {
                }
                return true;
            }
            i = i + 1;
        }
        assert(all.skip(i as int) =~= Seq::<Invoice>::empty());
        false
    }

    /// The first registered user is the administrator.
    pub fn is_admin(&self, email: &str) -> (r: bool)
        ensures
            r == (self.users@.len() > 0 && self.users@[0].email@ == email@),
    {
        self.users.len() > 0 && str_eq(self.users[0].email.as_str(), email)
    }

    /// The positions of the user's invoices, in order.
    pub fn invoices_of(&self, email: &str) -> (r: Vec<usize>)
        ensures
            forall|k: int| 0 <= k < r@.len() ==> (#[trigger] r@[k]) < self.invoices@.len()
                && self.invoices@[r@[k] as int].user_email@ == email@,
            forall|k: int, l: int| 0 <= k < l < r@.len() ==> r@[k] < r@[l],
            forall|j: int| 0 <= j < self.invoices@.len() && (#[trigger] self.invoices@[j]).user_email@ == email@
                ==> r@.contains(j as usize),
    {
        let mut r: Vec<usize> = Vec::new();
        let mut i: usize = 0;
        while i < self.invoices.len()
            invariant
                i <= self.invoices.len(),
                forall|k: int| 0 <= k < r@.len() ==> (#[trigger] r@[k]) < i && self.invoices@[r@[k] as int].user_email@ == email@,
                forall|k: int, l: int| 0 <= k < l < r@.len() ==> r@[k] < r@[l],
                forall|j: int| 0 <= j < i && (#[trigger] self.invoices@[j]).user_email@ == email@ ==> r@.contains(j as usize),
            decreases self.invoices.len() - i,
        {
            if str_eq(self.invoices[i].user_email.as_str(), email) {
                let ghost before = r@;
                r.push(i);
                assert forall|j: int| 0 <= j < i + 1 && (#[trigger] self.invoices@[j]).user_email@ == email@ implies r@.contains(j as usize) by {
                    if j < i {
                        let k = choose|k: int| 0 <= k < before.len() && before[k] == j as usize;
                        assert(r@[k] == j as usize);
                    } else {
                        assert(r@[r@.len() - 1] == i);
                    }
                }
            }
            i = i + 1;
        }
        r
    }
}

} // verus!
