//! The server's decisions: per-address rate limiting, token access, page file
//! names it serves, diff requests, and the log of received feedback.
use vstd::prelude::*;
use crate::text::{str_eq, chars_of, trim, first_field, trim_ws, before_char, is_alphanumeric, alphanumeric};
use crate::json::{JsonValue, JsonModel, obj_insert, object_model, cbor_to_json, cbor_json};
use crate::digest::{sha256_hex, sha256_spec, hex_text};
use crate::value::{CborValue, CborModel};
use crate::codec::{decode_value, cbor_decoding};

verus! {

// ── Rate limiting ──

/// One second in nanoseconds: the length of a rate-limit window.
pub const WINDOW_NANOS: u64 = 1_000_000_000;

/// Requests per second per address, counted in one-second windows. Instants
/// are nanoseconds on a monotonic clock.
#[derive(Debug, Clone)]
pub struct RateLimiter {
    pub max_per_sec: u32,
    /// Per address: the start of its current window and the requests counted in it.
    pub buckets: Vec<(String, u64, u32)>,
}

/// Time from `start` to `now`; none where `now` is earlier (`Instant::duration_since`).
pub open spec fn elapsed(now: u64, start: u64) -> int {
    if now >= start { now - start } else { 0 }
}

/// Each address has one bucket, and no bucket counts more than the limit
/// (or than 1, the request that opens a window).
pub open spec fn limiter_wf(max: u32, s: Seq<(String, u64, u32)>) -> bool {
    &&& forall|i: int, j: int| 0 <= i < j < s.len() ==> (#[trigger] s[i]).0@ != (#[trigger] s[j]).0@
    &&& forall|i: int| 0 <= i < s.len() ==> (#[trigger] s[i]).2 <= if max >= 1 { max } else { 1 }
}

/// The bucket of an address, where it has one.
pub open spec fn bucket_of(s: Seq<(String, u64, u32)>, ip: Seq<char>) -> Option<(u64, u32)>
    decreases s.len(),
{
    if s.len() == 0 {
        None
    } else if s.last().0@ == ip {
        Some((s.last().1, s.last().2))
    } else {
        bucket_of(s.drop_last(), ip)
    }
}

proof fn lemma_bucket_at(s: Seq<(String, u64, u32)>, i: int)
    requires
        forall|a: int, b: int| 0 <= a < b < s.len() ==> (#[trigger] s[a]).0@ != (#[trigger] s[b]).0@,
        0 <= i < s.len(),
    ensures
        bucket_of(s, s[i].0@) == Some((s[i].1, s[i].2)),
    decreases s.len(),
{
    if i < s.len() - 1 {
        let t = s.drop_last();
        assert forall|a: int, b: int| 0 <= a < b < t.len() implies (#[trigger] t[a]).0@ != (#[trigger] t[b]).0@ by {
            assert(t[a] == s[a] && t[b] == s[b]);
        }
        lemma_bucket_at(t, i);
        assert(s[s.len() - 1].0@ != s[i].0@);
    }
}

proof fn lemma_bucket_absent(s: Seq<(String, u64, u32)>, ip: Seq<char>)
    requires
        forall|j: int| 0 <= j < s.len() ==> (#[trigger] s[j]).0@ != ip,
    ensures
        bucket_of(s, ip) is None,
    decreases s.len(),
{
    if s.len() > 0 {
        lemma_bucket_absent(s.drop_last(), ip);
    }
}

proof fn lemma_bucket_update(s: Seq<(String, u64, u32)>, i: int, start: u64, count: u32)
    requires
        forall|a: int, b: int| 0 <= a < b < s.len() ==> (#[trigger] s[a]).0@ != (#[trigger] s[b]).0@,
        0 <= i < s.len(),
    ensures
        forall|ip: Seq<char>| #[trigger] bucket_of(s.update(i, (s[i].0, start, count)), ip) == if ip == s[i].0@ {
            Some((start, count))
        } else {
            bucket_of(s, ip)
        },
    decreases s.len(),
{
    let t = s.update(i, (s[i].0, start, count));
    if i == s.len() - 1 {
        assert(t.drop_last() =~= s.drop_last());
        assert forall|ip: Seq<char>| #[trigger] bucket_of(t, ip) == if ip == s[i].0@ {
            Some((start, count))
        } else {
            bucket_of(s, ip)
        } by {}
    } else {
        let s2 = s.drop_last();
        assert forall|a: int, b: int| 0 <= a < b < s2.len() implies (#[trigger] s2[a]).0@ != (#[trigger] s2[b]).0@ by {
            assert(s2[a] == s[a] && s2[b] == s[b]);
        }
        lemma_bucket_update(s2, i, start, count);
        assert(t.drop_last() =~= s2.update(i, (s2[i].0, start, count)));
        assert(s.last().0@ != s[i].0@);
        assert forall|ip: Seq<char>| #[trigger] bucket_of(t, ip) == if ip == s[i].0@ {
            Some((start, count))
        } else {
            bucket_of(s, ip)
        } by {
            assert(bucket_of(s2.update(i, (s2[i].0, start, count)), ip) == if ip == s2[i].0@ {
                Some((start, count))
            } else {
                bucket_of(s2, ip)
            });
        }
    }
}

/// The bucket an address has after a request at `now`, and whether the
/// request is let through: an address without a bucket, or whose window began
/// a second or more ago, opens a new window counting this request; otherwise
/// the request passes and is counted while the window counts fewer than the
/// limit, and is refused once it counts the limit.
pub open spec fn check_step(max: u32, bucket: Option<(u64, u32)>, now: u64) -> ((u64, u32), bool) {
    let (start, count) = match bucket {
        Some(b) => b,
        None => (now, 0u32),
    };
    if elapsed(now, start) >= WINDOW_NANOS {
        ((now, 1u32), true)
    } else if count < max {
        ((start, (count + 1) as u32), true)
    } else {
        ((start, count), false)
    }
}

impl RateLimiter {
    pub open spec fn wf(&self) -> bool {
        limiter_wf(self.max_per_sec, self.buckets@)
    }

    /// The bucket of an address.
    pub open spec fn bucket(&self, ip: Seq<char>) -> Option<(u64, u32)> {
        bucket_of(self.buckets@, ip)
    }

    /// A limiter of `max_per_sec` requests per second with no buckets yet.
    pub fn new(max_per_sec: u32) -> (r: Self)
        ensures
            r.wf(),
            r.max_per_sec == max_per_sec,
            forall|ip: Seq<char>| r.bucket(ip) is None,
    {
        RateLimiter { max_per_sec, buckets: Vec::new() }
    }

    /// Counts a request from `ip` at `now` and tells whether it passes
    /// (`check_step`); no other address's bucket changes.
    pub fn check(&mut self, ip: &str, now: u64) -> (r: bool)
        requires
            old(self).wf(),
        ensures
            final(self).wf(),
            final(self).max_per_sec == old(self).max_per_sec,
            (final(self).bucket(ip@), r) == ({
                let (b, pass) = check_step(old(self).max_per_sec, old(self).bucket(ip@), now);
                (Some(b), pass)
            }),
            forall|other: Seq<char>| other != ip@ ==> #[trigger] final(self).bucket(other) == old(self).bucket(other),
    {
        let found = find_bucket(&self.buckets, ip);
        if let Some(i) = found {
            proof {
                lemma_bucket_at(self.buckets@, i as int);
            }
            let start = self.buckets[i].1;
            let count = self.buckets[i].2;
            let name = self.buckets[i].0.clone();
            let since = if now >= start { now - start } else { 0 };
            let ghost before = self.buckets@;
            if since >= WINDOW_NANOS {
                proof {
                    lemma_bucket_update(before, i as int, now, 1);
                }
                self.buckets.set(i, (name, now, 1));
                proof {
                    let s = self.buckets@;
                    assert forall|a: int| 0 <= a < s.len() implies (#[trigger] s[a]).2 <= if self.max_per_sec >= 1 { self.max_per_sec } else { 1 } by {
                        if a != i { assert(s[a] == before[a]); }
                    }
                }
                true
            } else if count < self.max_per_sec {
                proof {
                    lemma_bucket_update(before, i as int, start, (count + 1) as u32);
                }
                self.buckets.set(i, (name, start, count + 1));
                proof {
                    let s = self.buckets@;
                    assert forall|a: int| 0 <= a < s.len() implies (#[trigger] s[a]).2 <= if self.max_per_sec >= 1 { self.max_per_sec } else { 1 } by {
                        if a != i { assert(s[a] == before[a]); }
                    }
                }
                true
            } else {
                false
            }
        } else {
            proof {
                lemma_bucket_absent(self.buckets@, ip@);
            }
            let ghost before = self.buckets@;
            // A new bucket opens its window at `now`; the request is counted where the limit allows one.
            let pass = 0 < self.max_per_sec;
            self.buckets.push((ip.to_owned(), now, if pass { 1 } else { 0 }));
            proof {
                let s = self.buckets@;
                assert(s.drop_last() =~= before);
                assert forall|a: int, b: int| 0 <= a < b < s.len() implies (#[trigger] s[a]).0@ != (#[trigger] s[b]).0@ by {
                    if b == s.len() - 1 {
                        assert(s[a] == before[a]);
                    } else {
                        assert(s[a] == before[a] && s[b] == before[b]);
                    }
                }
                assert forall|a: int| 0 <= a < s.len() implies (#[trigger] s[a]).2 <= if self.max_per_sec >= 1 { self.max_per_sec } else { 1 } by {
                    if a < s.len() - 1 { assert(s[a] == before[a]); }
                }
            }
            pass
        }
    }
}

fn find_bucket(buckets: &Vec<(String, u64, u32)>, ip: &str) -> (r: Option<usize>)
    ensures
        match r {
            Some(i) => i < buckets@.len() && buckets@[i as int].0@ == ip@,
            None => forall|j: int| 0 <= j < buckets@.len() ==> (#[trigger] buckets@[j]).0@ != ip@,
        },
{
    let mut i: usize = 0;
    while i < buckets.len()
        invariant
            i <= buckets.len(),
            forall|j: int| 0 <= j < i ==> (#[trigger] buckets@[j]).0@ != ip@,
        decreases buckets.len() - i,
    {
        if str_eq(buckets[i].0.as_str(), ip) {
            return Some(i);
        }
        i = i + 1;
    }
    None
}

} // verus!

verus! {

// ── Requests ──

/// The address a request comes from: the first comma-separated part of the
/// first forwarding header present, without white space around it; "unknown"
/// where no header is present or its value is not text.
pub open spec fn client_ip_of(header: Option<Seq<char>>) -> Seq<char> {
    trim_ws(before_char(
        match header {
            Some(h) => h,
            None => "unknown"@,
        },
        ',',
    ))
}

/// The address a request comes from (`client_ip_of`); `header` is the text of
/// the first of CF-Connecting-IP, X-Forwarded-For and X-Real-IP present.
pub fn client_ip(header: Option<&str>) -> (r: String)
    ensures
        r@ == client_ip_of(
            match header {
                Some(h) => Some(h@),
                None => None,
            },
        ),
{
    let h = match header {
        Some(h) => h,
        None => "unknown",
    };
    let first = first_field(h, ',');
    trim(first.as_str())
}

/// Whether a request may pass the token check: always where the server has
/// no token, otherwise exactly where the wallet header (empty where missing)
/// equals the token.
pub fn token_allows(token: Option<&str>, provided: Option<&str>) -> (r: bool)
    ensures
        r == match token {
            None => true,
            Some(t) => t@ == match provided {
                Some(p) => p@,
                None => ""@,
            },
        },
{
    match token {
        None => true,
        Some(t) => {
            let p = match provided {
                Some(p) => p,
                None => "",
            };
            str_eq(p, t)
        },
    }
}

/// A character that may stand in a served page file name.
pub open spec fn filename_char(c: char) -> bool {
    alphanumeric(c) || c == '_' || c == '.' || c == '-'
}

/// Whether a requested page file name is served: it is made only of
/// alphanumeric characters, '_', '.' and '-'.
pub fn is_safe_filename(filename: &str) -> (r: bool)
    ensures
        r == forall|i: int| 0 <= i < filename@.len() ==> filename_char(#[trigger] filename@[i]),
{
    let cs = chars_of(filename);
    let mut i: usize = 0;
    while i < cs.len()
        invariant
            i <= cs.len(),
            cs@ == filename@,
            forall|j: int| 0 <= j < i ==> filename_char(#[trigger] cs@[j]),
        decreases cs.len() - i,
    {
        let c = cs[i];
        if !(is_alphanumeric(c) || c == '_' || c == '.' || c == '-') {
            assert(!filename_char(filename@[i as int]));
            return false;
        }
        i = i + 1;
    }
    true
}

/// A diff base: 64 hexadecimal digits.
pub open spec fn valid_base(s: Seq<char>) -> bool {
    s.len() == 64 && forall|i: int| 0 <= i < s.len() ==> crate::digest::is_hex_digit(#[trigger] s[i])
}

/// Whether a diff request names a valid base (64 hexadecimal digits).
pub fn is_valid_base(base: &str) -> (r: bool)
    ensures
        r == valid_base(base@),
{
    let cs = chars_of(base);
    if cs.len() != 64 {
        return false;
    }
    let mut i: usize = 0;
    while i < cs.len()
        invariant
            i <= cs.len(),
            cs@ == base@,
            forall|j: int| 0 <= j < i ==> crate::digest::is_hex_digit(#[trigger] cs@[j]),
        decreases cs.len() - i,
    {
        let c = cs[i];
        if !(('0' <= c && c <= '9') || ('a' <= c && c <= 'f') || ('A' <= c && c <= 'F')) {
            assert(!crate::digest::is_hex_digit(base@[i as int]));
            return false;
        }
        i = i + 1;
    }
    true
}

/// An entity tag for served bytes: their SHA-256 in lowercase hexadecimal,
/// in double quotes.
pub fn etag_of(data: &[u8]) -> (r: String)
    ensures
        r@ == seq!['"'] + hex_text(sha256_spec(data@), false) + seq!['"'],
{
    let mut r = String::new();
    crate::text::push_char(&mut r, '"');
    let h = sha256_hex(data);
    r.append(h.as_str());
    crate::text::push_char(&mut r, '"');
    r
}

// ── Received feedback ──

/// The most feedback records kept; past it the oldest are dropped.
pub const DOLEANCE_LOG_LIMIT: usize = 10_000;

/// How many of the oldest records are dropped at once.
pub const DOLEANCE_LOG_DROP: usize = 1_000;

/// Keeps a received feedback record: appended, and where the log then holds
/// more than the limit, its oldest records dropped.
pub fn record_doleance(log: &mut Vec<JsonValue>, entry: JsonValue)
    ensures
        old(log)@.len() + 1 > DOLEANCE_LOG_LIMIT ==> final(log)@ == old(log)@.push(entry).skip(DOLEANCE_LOG_DROP as int),
        old(log)@.len() + 1 <= DOLEANCE_LOG_LIMIT ==> final(log)@ == old(log)@.push(entry),
        old(log)@.len() <= DOLEANCE_LOG_LIMIT ==> final(log)@.len() <= DOLEANCE_LOG_LIMIT,
{
    log.push(entry);
    if log.len() > DOLEANCE_LOG_LIMIT {
        let kept = log.split_off(DOLEANCE_LOG_DROP);
        *log = kept;
    }
}

} // verus!

verus! {

/// Whether a feedback request declares the CBOR media type.
pub fn is_cbor_content_type(content_type: Option<&str>) -> (r: bool)
    ensures
        r == (content_type matches Some(ct) && ct@ == "application/cbor"@),
{
    match content_type {
        Some(ct) => str_eq(ct, "application/cbor"),
        None => false,
    }
}

/// The record kept of received feedback: when it came, its size, its SHA-256
/// (lowercase hexadecimal), and its content as JSON, or the decoding error.
pub open spec fn doleance_record(body: Seq<u8>, now: u64, parsed: Option<CborModel>, error: Seq<char>) -> Map<Seq<char>, JsonModel> {
    let base = Map::empty().insert("received_at"@, JsonModel::Int(now as int)).insert(
        "size"@,
        JsonModel::Int(body.len() as int),
    ).insert("hash"@, JsonModel::Str(hex_text(sha256_spec(body), false)));
    match parsed {
        Some(v) => base.insert("doleance"@, cbor_json(v)),
        None => base.insert("parse_error"@, JsonModel::Str(error)),
    }
}

/// The record kept of received feedback (`doleance_record`); where the body
/// does not decode, the record carries ciborium's error message.
pub fn doleance_entry(body: &[u8], now: u64) -> (r: JsonValue)
    ensures
        r@ matches JsonModel::Object(m) && (cbor_decoding(body@) is Some ==> m == doleance_record(body@, now, cbor_decoding(body@), ""@))
            && (cbor_decoding(body@) is None ==> exists|e: Seq<char>| m == doleance_record(body@, now, None, e)),
{
    let mut entry: Vec<(String, JsonValue)> = Vec::new();
    assert(object_model(entry@) =~= Map::empty());
    obj_insert(&mut entry, "received_at", JsonValue::Int(now as i128));
    obj_insert(&mut entry, "size", JsonValue::Int(body.len() as i128));
    obj_insert(&mut entry, "hash", JsonValue::Str(sha256_hex(body)));
    match decode_value(body) {
        Ok(value) => {
            obj_insert(&mut entry, "doleance", cbor_to_json(&value));
        },
        Err(e) => {
            let ghost msg = e@;
            obj_insert(&mut entry, "parse_error", JsonValue::Str(e));
            assert(object_model(entry@) == doleance_record(body@, now, None, msg));
        },
    }
    JsonValue::Object(entry)
}

/// The diff document for a base that is the current manifest: no changes.
pub open spec fn no_change_diff(base_bytes: Seq<u8>, current: Seq<char>) -> CborModel {
    CborModel::Mapping(
        crate::canonical::canonical_entries(
            seq![
                (CborModel::Integer(0), CborModel::Text("cbor-web-diff"@)),
                (CborModel::Integer(1), CborModel::Integer(1)),
                (CborModel::Text("base_version_hash"@), CborModel::Bytes(base_bytes)),
                (CborModel::Text("current_hash"@), CborModel::Text(current)),
                (
                    CborModel::Text("stats"@),
                    CborModel::Mapping(
                        crate::canonical::canonical_entries(
                            seq![
                                (CborModel::Text("pages_added"@), CborModel::Integer(0)),
                                (CborModel::Text("pages_modified"@), CborModel::Integer(0)),
                                (CborModel::Text("pages_removed"@), CborModel::Integer(0)),
                                (CborModel::Text("total_pages_now"@), CborModel::Integer(0)),
                            ],
                        ),
                    ),
                ),
                (CborModel::Text("changes"@), CborModel::Array(Seq::empty())),
            ],
        ),
    )
}

/// The diff a request for base `base` gets when the current manifest hashes to
/// `current`: the no-change diff where they are the same, none otherwise (no
/// history is kept). The base's bytes are its hexadecimal decoding (empty
/// where it does not decode).
pub fn diff_document(base: &str, current: &str) -> (r: Option<CborValue>)
    ensures
        r is Some <==> base@ == current@,
        r matches Some(d) ==> d.wf() && d@ == no_change_diff(
            if crate::digest::is_hex_text(base@) { crate::digest::hex_bytes(base@) } else { Seq::empty() },
            current@,
        ),
{
    if !str_eq(base, current) {
        return None;
    }
    let base_bytes = match crate::digest::hex_decode(base) {
        Some(b) => b,
        None => Vec::new(),
    };
    let mut stats_entries: Vec<(CborValue, CborValue)> = Vec::new();
    stats_entries.push((crate::value::t("pages_added"), crate::value::u(0)));
    stats_entries.push((crate::value::t("pages_modified"), crate::value::u(0)));
    stats_entries.push((crate::value::t("pages_removed"), crate::value::u(0)));
    stats_entries.push((crate::value::t("total_pages_now"), crate::value::u(0)));
    proof {
        crate::value::lemma_entry_models_of(stats_entries@);
        assert(crate::value::entry_models_of(stats_entries@) =~= seq![
            (CborModel::Text("pages_added"@), CborModel::Integer(0)),
            (CborModel::Text("pages_modified"@), CborModel::Integer(0)),
            (CborModel::Text("pages_removed"@), CborModel::Integer(0)),
            (CborModel::Text("total_pages_now"@), CborModel::Integer(0)),
        ]);
    }
    let stats = crate::canonical::canonical_map(stats_entries);
    let changes = crate::value::arr(Vec::new());
    let mut entries: Vec<(CborValue, CborValue)> = Vec::new();
    entries.push((crate::value::ii(0), crate::value::t("cbor-web-diff")));
    entries.push((crate::value::ii(1), crate::value::ii(1)));
    entries.push((crate::value::t("base_version_hash"), CborValue::Bytes(base_bytes)));
    entries.push((crate::value::t("current_hash"), crate::value::t(current)));
    entries.push((crate::value::t("stats"), stats));
    entries.push((crate::value::t("changes"), changes));
    proof {
        crate::value::lemma_entry_models_of(entries@);
        assert(crate::value::models_of(Seq::<CborValue>::empty()) =~= Seq::<CborModel>::empty());
        assert(crate::value::entry_models_of(entries@) =~= seq![
            (CborModel::Integer(0), CborModel::Text("cbor-web-diff"@)),
            (CborModel::Integer(1), CborModel::Integer(1)),
            (CborModel::Text("base_version_hash"@), CborModel::Bytes(entries@[2].1->Bytes_0@)),
            (CborModel::Text("current_hash"@), CborModel::Text(current@)),
            (CborModel::Text("stats"@), entries@[4].1@),
            (CborModel::Text("changes"@), CborModel::Array(Seq::empty())),
        ]);
    }
    let doc = crate::canonical::canonical_map(entries);
    Some(doc)
}

/// The encoded diff a request for base `base` gets when the current manifest
/// hashes to `current` (`diff_document`, encoded), none where they differ.
pub fn diff_payload(base: &str, current: &str) -> (r: Option<Vec<u8>>)
    ensures
        r is Some <==> base@ == current@,
        r matches Some(b) ==> b@ == crate::codec::cbor_encoding(no_change_diff(
            if crate::digest::is_hex_text(base@) { crate::digest::hex_bytes(base@) } else { Seq::empty() },
            current@,
        )),
{
    match diff_document(base, current) {
        Some(d) => Some(crate::codec::encode_value(&d)),
        None => None,
    }
}

/// The answer where no diff is available: the error, the base and the current hash.
pub fn diff_unavailable(base: &str, current: &str) -> (r: JsonValue)
    ensures
        r@ == JsonModel::Object(
            Map::empty().insert("error"@, JsonModel::Str("Diff not available"@)).insert("base"@, JsonModel::Str(base@)).insert(
                "current"@,
                JsonModel::Str(current@),
            ),
        ),
{
    let mut m: Vec<(String, JsonValue)> = Vec::new();
    assert(object_model(m@) =~= Map::empty());
    obj_insert(&mut m, "error", crate::json::jstr("Diff not available"));
    obj_insert(&mut m, "base", crate::json::jstr(base));
    obj_insert(&mut m, "current", crate::json::jstr(current));
    JsonValue::Object(m)
}

} // verus!
