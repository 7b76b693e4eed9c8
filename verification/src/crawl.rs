//! The crawler's logic: reading fetched documents, manifests and page entries,
//! page file names, and what a crawl fetches.
use vstd::prelude::*;
use crate::value::{CborValue, CborModel, SELF_DESCRIBED_TAG, entry_models_of, models_of, lemma_models_of};
use crate::codec::{decode_value, cbor_decoding, is_self_described_prefix};
use crate::lookup::{field_of, FieldKind, entries_of, lookup, get_map_value, get_text_field, get_uint_field, get_bool_field, get_array_field, get_array_value, find_text_in_map, find_uint_in_map, find_bytes_in_map, map_entries, texts_of};
use crate::content::text_member;
use crate::digest::{hex_encode, hex_text, sha256_hex, sha256_spec};
use crate::text::{push_char, chars_of, string_of, str_eq, str_contains, seq_contains};
use crate::json::{JsonValue, JsonModel, object_model, json_model};

verus! {

// ── Documents ──

/// The document a byte string holds: its first data item, taken out of the
/// self-described tag 55799 where it stands under it.
pub open spec fn document_of(bytes: Seq<u8>) -> Option<CborModel> {
    match cbor_decoding(bytes) {
        Some(CborModel::Tag(tag, inner)) => if tag == SELF_DESCRIBED_TAG {
            Some(*inner)
        } else {
            Some(CborModel::Tag(tag, inner))
        },
        other => other,
    }
}

/// Decodes a CBOR-Web document, unwrapping the self-described tag.
pub fn parse_cbor_document(bytes: &[u8]) -> (r: Result<CborValue, String>)
    ensures
        r is Ok <==> document_of(bytes@) is Some,
        r matches Ok(v) ==> document_of(bytes@) == Some(v@) && v.wf(),
{
    let value = decode_value(bytes)?;
    match value {
        CborValue::Tag(tag, inner) => if tag == SELF_DESCRIBED_TAG {
            Ok(*inner)
        } else {
            Ok(CborValue::Tag(tag, inner))
        },
        other => Ok(other),
    }
}

/// Whether a byte string begins with the self-described CBOR tag (D9 D9 F7).
pub fn has_self_described_tag(bytes: &[u8]) -> (r: bool)
    ensures
        r == is_self_described_prefix(bytes@),
{
    bytes.len() >= 3 && bytes[0] == 0xD9 && bytes[1] == 0xD9 && bytes[2] == 0xF7
}

/// Why a fetched response is refused.
#[derive(Debug, PartialEq, Eq)]
pub enum FetchError {
    /// The HTTP status was no success; its code.
    Http(u16),
    /// The body was larger than allowed: its size and the limit.
    TooLarge(usize, usize),
    /// The body does not begin with the self-described CBOR tag.
    NotSelfDescribed,
}

/// Accepts a fetched response: a success status, a body within `max_size`
/// bytes, and the self-described tag at its start.
pub fn check_response(status: u16, success: bool, bytes: Vec<u8>, max_size: usize) -> (r: Result<Vec<u8>, FetchError>)
    ensures
        !success ==> (r matches Err(FetchError::Http(s)) && s == status),
        success && bytes.len() > max_size ==> (r matches Err(FetchError::TooLarge(n, m)) && n == bytes.len() && m == max_size),
        success && bytes.len() <= max_size && !is_self_described_prefix(bytes@) ==> (r matches Err(FetchError::NotSelfDescribed)),
        success && bytes.len() <= max_size && is_self_described_prefix(bytes@) ==> r == Ok::<Vec<u8>, FetchError>(bytes),
{
    if !success {
        return Err(FetchError::Http(status));
    }
    if bytes.len() > max_size {
        return Err(FetchError::TooLarge(bytes.len(), max_size));
    }
    if has_self_described_tag(bytes.as_slice()) {
        Ok(bytes)
    } else {
        Err(FetchError::NotSelfDescribed)
    }
}

// ── Text helpers ──

/// `s` cut to `max` characters with "..." after, where its UTF-8 form is
/// longer than `max` bytes; `s` itself otherwise.
pub open spec fn truncated(s: Seq<char>, max: nat) -> Seq<char> {
    if vstd::utf8::encode_utf8(s).len() <= max {
        s
    } else {
        s.take(if max <= s.len() { max as int } else { s.len() as int }) + "..."@
    }
}

fn append_literal(r: &mut String, lit: &str)
    ensures
        final(r)@ == old(r)@ + lit@,
{
    r.append(lit);
}

/// Shortens text for display (`truncated`).
pub fn truncate(s: &str, max: usize) -> (r: String)
    ensures
        r@ == truncated(s@, max as nat),
{
    if s.as_bytes().len() <= max {
        return s.to_owned();
    }
    let cs = chars_of(s);
    let n = if max <= cs.len() { max } else { cs.len() };
    let mut r = String::new();
    let mut i: usize = 0;
    while i < n
        invariant
            n <= cs.len(),
            i <= n,
            r@ == cs@.take(i as int),
        decreases n - i,
    {
        push_char(&mut r, cs[i]);
        i = i + 1;
        assert(r@ =~= cs@.take(i as int));
    }
    append_literal(&mut r, "...");
    r
}

/// `s` with every underscore written as "%5F".
pub open spec fn escape_underscores(s: Seq<char>) -> Seq<char>
    decreases s.len(),
{
    if s.len() == 0 {
        Seq::empty()
    } else {
        escape_underscores(s.drop_last()) + if s.last() == '_' {
            "%5F"@
        } else {
            seq![s.last()]
        }
    }
}

/// `s` without the run of `c` at its start (`trim_start_matches(c)`).
pub open spec fn trim_leading(s: Seq<char>, c: char) -> Seq<char>
    decreases s.len(),
{
    if s.len() > 0 && s[0] == c {
        trim_leading(s.drop_first(), c)
    } else {
        s
    }
}

/// `s` without the run of `c` at its end (`trim_end_matches(c)`).
pub open spec fn trim_trailing(s: Seq<char>, c: char) -> Seq<char>
    decreases s.len(),
{
    if s.len() > 0 && s.last() == c {
        trim_trailing(s.drop_last(), c)
    } else {
        s
    }
}

/// `s` with every `a` replaced by `b`.
pub open spec fn replace_char(s: Seq<char>, a: char, b: char) -> Seq<char> {
    s.map_values(|c: char| if c == a { b } else { c })
}

/// The file name of a page path (§6.1): "/" is "_index.cbor"; any other path
/// has its underscores escaped as "%5F", its leading slashes removed, its
/// other slashes turned into underscores, and ".cbor" appended.
pub open spec fn page_filename(path: Seq<char>) -> Seq<char> {
    if path == "/"@ {
        "_index.cbor"@
    } else {
        replace_char(trim_leading(escape_underscores(path), '/'), '/', '_') + ".cbor"@
    }
}

fn escape_underscores_exec(cs: &Vec<char>) -> (r: Vec<char>)
    ensures
        r@ == escape_underscores(cs@),
{
    let mut r: Vec<char> = Vec::new();
    let mut i: usize = 0;
    while i < cs.len()
        invariant
            i <= cs.len(),
            r@ == escape_underscores(cs@.take(i as int)),
        decreases cs.len() - i,
    {
        assert(cs@.take(i + 1).drop_last() =~= cs@.take(i as int));
        let ghost before = r@;
        if cs[i] == '_' {
            r.push('%');
            r.push('5');
            r.push('F');
            proof {
                reveal_strlit("%5F");
                assert(r@ =~= before + "%5F"@);
            }
        } else {
            r.push(cs[i]);
            assert(r@ =~= before + seq![cs@[i as int]]);
        }
        i = i + 1;
    }
    assert(cs@.take(cs.len() as int) =~= cs@);
    r
}

/// Position of the first character that is not `c`.
fn leading_run(cs: &Vec<char>, c: char) -> (r: usize)
    ensures
        r <= cs.len(),
        trim_leading(cs@, c) == cs@.skip(r as int),
{
    let mut i: usize = 0;
    assert(cs@.skip(0) =~= cs@);
    while i < cs.len() && cs[i] == c
        invariant
            i <= cs.len(),
            trim_leading(cs@, c) == trim_leading(cs@.skip(i as int), c),
        decreases cs.len() - i,
    {
        assert(cs@.skip(i as int).drop_first() =~= cs@.skip(i + 1));
        i = i + 1;
    }
    i
}

/// The file name of a page path (`page_filename`).
pub fn path_to_filename(path: &str) -> (r: String)
    ensures
        r@ == page_filename(path@),
{
    if str_eq(path, "/") {
        return "_index.cbor".to_owned();
    }
    let escaped = escape_underscores_exec(&chars_of(path));
    let start = leading_run(&escaped, '/');
    let mut out: Vec<char> = Vec::new();
    let mut i: usize = start;
    while i < escaped.len()
        invariant
            start <= i <= escaped.len(),
            out@ == replace_char(escaped@.subrange(start as int, i as int), '/', '_'),
        decreases escaped.len() - i,
    {
        let c = escaped[i];
        out.push(if c == '/' { '_' } else { c });
        i = i + 1;
        assert(out@ =~= replace_char(escaped@.subrange(start as int, i as int), '/', '_'));
    }
    assert(escaped@.subrange(start as int, escaped.len() as int) =~= escaped@.skip(start as int));
    let mut r = string_of(&out);
    append_literal(&mut r, ".cbor");
    r
}

} // verus!

verus! {

// ── Page entries ──

/// A page as a manifest lists it.
#[derive(Debug, Clone, PartialEq, Eq)]
pub struct PageEntry {
    pub path: String,
    pub access: String,
    /// The lowercase hexadecimal content hash, where the entry has one.
    pub hash: Option<String>,
}

/// `o`'s text, or `d` where there is none.
pub open spec fn text_or(o: Option<Seq<char>>, d: Seq<char>) -> Seq<char> {
    match o {
        Some(s) => s,
        None => d,
    }
}

/// The bytes under the text key `key`, where there are some.
pub open spec fn bytes_member(entries: Seq<(CborModel, CborModel)>, key: Seq<char>) -> Option<Seq<u8>> {
    match field_of(entries, key, FieldKind::Bytes) {
        Some(CborModel::Bytes(b)) => Some(b),
        _ => None,
    }
}

/// A page entry is a map with a text "path"; its access tier is its text
/// "access" ("T2" where there is none), its hash the hexadecimal text of its
/// bytes "hash".
pub open spec fn page_entry_of(v: CborModel) -> Option<(Seq<char>, Seq<char>, Option<Seq<char>>)> {
    match v {
        CborModel::Mapping(e) => match text_member(e, "path"@) {
            Some(path) => Some(
                (
                    path,
                    text_or(text_member(e, "access"@), "T2"@),
                    match bytes_member(e, "hash"@) {
                        Some(b) => Some(hex_text(b, false)),
                        None => None,
                    },
                ),
            ),
            None => None,
        },
        _ => None,
    }
}

impl PageEntry {
    pub open spec fn model(&self) -> (Seq<char>, Seq<char>, Option<Seq<char>>) {
        (
            self.path@,
            self.access@,
            match self.hash {
                Some(h) => Some(h@),
                None => None,
            },
        )
    }
}

/// Reads a page entry of a manifest (`page_entry_of`).
pub fn parse_page_entry(value: &CborValue) -> (r: Option<PageEntry>)
    ensures
        match r {
            Some(e) => page_entry_of(value@) == Some(e.model()),
            None => page_entry_of(value@) is None,
        },
{
    match value {
        CborValue::Mapping(es) => {
            let entries = es.as_slice();
            let path = match find_text_in_map(entries, "path") {
                Some(p) => p.to_owned(),
                None => return None,
            };
            let access = match find_text_in_map(entries, "access") {
                Some(a) => a.to_owned(),
                None => "T2".to_owned(),
            };
            let hash = match find_bytes_in_map(entries, "hash") {
                Some(b) => Some(hex_encode(b)),
                None => None,
            };
            Some(PageEntry { path, access, hash })
        },
        _ => None,
    }
}

/// The page entries among the items of a manifest's page list.
pub open spec fn page_entries_of(items: Seq<CborModel>) -> Seq<(Seq<char>, Seq<char>, Option<Seq<char>>)>
    decreases items.len(),
{
    if items.len() == 0 {
        Seq::empty()
    } else {
        let rest = page_entries_of(items.drop_last());
        match page_entry_of(items.last()) {
            Some(e) => rest.push(e),
            None => rest,
        }
    }
}

/// The page entries of a page list, skipping items that are no page entry.
pub fn parse_page_entries(items: &Vec<CborValue>) -> (r: Vec<PageEntry>)
    ensures
        r@.map_values(|e: PageEntry| e.model()) == page_entries_of(models_of(items@)),
{
    proof {
        lemma_models_of(items@);
    }
    let mut r: Vec<PageEntry> = Vec::new();
    let mut i: usize = 0;
    while i < items.len()
        invariant
            i <= items.len(),
            models_of(items@).len() == items@.len(),
            forall|j: int| 0 <= j < items@.len() ==> #[trigger] models_of(items@)[j] == items@[j]@,
            r@.map_values(|e: PageEntry| e.model()) == page_entries_of(models_of(items@).take(i as int)),
        decreases items.len() - i,
    {
        let ghost ms = models_of(items@);
        assert(ms.take(i + 1).drop_last() =~= ms.take(i as int));
        assert(ms.take(i + 1).last() == items@[i as int]@);
        let ghost before = r@;
        match parse_page_entry(&items[i]) {
            Some(e) => {
                r.push(e);
                assert(r@.map_values(|e: PageEntry| e.model()) =~= before.map_values(|e: PageEntry| e.model()).push(
                    r@.last().model(),
                ));
            },
            None => {},
        }
        i = i + 1;
    }
    assert(models_of(items@).take(items.len() as int) =~= models_of(items@));
    r
}

/// Whether an access tier needs credentials ("T0" or "token"); such pages are
/// not fetched.
pub open spec fn requires_auth(access: Seq<char>) -> bool {
    access == "T0"@ || access == "token"@
}

pub fn needs_auth(access: &str) -> (r: bool)
    ensures
        r == requires_auth(access@),
{
    str_eq(access, "T0") || str_eq(access, "token")
}

// ── Manifest layout ──

/// The document type text under key 0, where there is one.
pub open spec fn doc_type_of(doc: CborModel) -> Option<Seq<char>> {
    match lookup(doc, CborModel::Integer(0)) {
        Some(CborModel::Text(s)) => Some(s),
        _ => None,
    }
}

/// Whether a manifest is a unified (v3.0) index: document type "cbor-web".
pub open spec fn unified(doc: CborModel) -> bool {
    doc_type_of(doc) == Some("cbor-web"@)
}

/// The document type text under key 0.
pub fn document_type(doc: &CborValue) -> (r: Option<&str>)
    ensures
        match r {
            Some(s) => doc_type_of(doc@) == Some(s@),
            None => doc_type_of(doc@) is None,
        },
{
    let k0 = CborValue::Integer(0);
    match get_map_value(doc, &k0) {
        Some(CborValue::Text(s)) => Some(s.as_str()),
        _ => None,
    }
}

/// Whether a manifest is a unified (v3.0) index.
pub fn is_unified(doc: &CborValue) -> (r: bool)
    ensures
        r == unified(doc@),
{
    match document_type(doc) {
        Some(s) => str_eq(s, "cbor-web"),
        None => false,
    }
}

/// The keys of the meta section and of the page list: 6 and 5 in a unified
/// index, 5 and 3 in a v2.1 manifest.
pub fn layout_keys(unified: bool) -> (r: (u64, u64))
    ensures
        r == (if unified { (6u64, 5u64) } else { (5u64, 3u64) }),
{
    if unified { (6, 5) } else { (5, 3) }
}

/// The format a manifest declares: its type name and specification version.
#[derive(Debug, Clone, PartialEq, Eq)]
pub struct ManifestFormat {
    pub kind_name: String,
    pub spec_version: String,
}

/// "cbor-web" is the unified format (v3.0), "cbor-web-manifest" v2.1; any
/// other type text is shown as it is, of unknown version.
pub open spec fn format_of(doc: CborModel) -> (Seq<char>, Seq<char>) {
    match doc_type_of(doc) {
        Some(s) => if s == "cbor-web"@ {
            ("cbor-web (unified)"@, "v3.0"@)
        } else if s == "cbor-web-manifest"@ {
            ("cbor-web-manifest"@, "v2.1"@)
        } else {
            (s, "unknown"@)
        },
        None => ("unknown"@, "unknown"@),
    }
}

/// The format a manifest declares (`format_of`).
pub fn manifest_format(doc: &CborValue) -> (r: ManifestFormat)
    ensures
        (r.kind_name@, r.spec_version@) == format_of(doc@),
{
    match document_type(doc) {
        Some(s) => if str_eq(s, "cbor-web") {
            ManifestFormat { kind_name: "cbor-web (unified)".to_owned(), spec_version: "v3.0".to_owned() }
        } else if str_eq(s, "cbor-web-manifest") {
            ManifestFormat { kind_name: "cbor-web-manifest".to_owned(), spec_version: "v2.1".to_owned() }
        } else {
            ManifestFormat { kind_name: s.to_owned(), spec_version: "unknown".to_owned() }
        },
        None => ManifestFormat { kind_name: "unknown".to_owned(), spec_version: "unknown".to_owned() },
    }
}

/// The meta and page-list keys for a shown type name: the unified layout
/// where the name contains "unified".
pub fn inspect_keys(kind_name: &str) -> (r: (u64, u64))
    ensures
        r == (if seq_contains(kind_name@, "unified"@) { (6u64, 5u64) } else { (5u64, 3u64) }),
{
    layout_keys(str_contains(kind_name, "unified"))
}

} // verus!

verus! {

// ── Manifest summary ──

/// The text under `key` of an optional map value.
pub open spec fn opt_text(parent: Option<CborModel>, key: Seq<char>) -> Option<Seq<char>> {
    match parent {
        Some(p) => text_member(entries_of(p), key),
        None => None,
    }
}

/// The integer under `key` of an optional map value, where it fits a `u64`.
pub open spec fn opt_uint(parent: Option<CborModel>, key: Seq<char>) -> Option<u64> {
    match parent {
        Some(p) => match field_of(entries_of(p), key, FieldKind::Integer) {
            Some(CborModel::Integer(n)) => if 0 <= n <= u64::MAX {
                Some(n as u64)
            } else {
                None
            },
            _ => None,
        },
        None => None,
    }
}

/// The boolean under `key` of an optional map value.
pub open spec fn opt_bool(parent: Option<CborModel>, key: Seq<char>) -> Option<bool> {
    match parent {
        Some(p) => match field_of(entries_of(p), key, FieldKind::Bool) {
            Some(CborModel::Bool(b)) => Some(b),
            _ => None,
        },
        None => None,
    }
}

/// The texts of the array under `key` of an optional map value.
pub open spec fn opt_texts(parent: Option<CborModel>, key: Seq<char>) -> Seq<Seq<char>> {
    match parent {
        Some(p) => match field_of(entries_of(p), key, FieldKind::Array) {
            Some(CborModel::Array(items)) => texts_of(items),
            _ => Seq::empty(),
        },
        None => Seq::empty(),
    }
}

/// One listed page, as the inspection shows it.
#[derive(Debug, Clone, PartialEq, Eq)]
pub struct PageRow {
    pub path: String,
    pub lang: String,
    pub access: String,
    pub size: u64,
    pub title: String,
}

impl PageRow {
    pub open spec fn model(&self) -> (Seq<char>, Seq<char>, Seq<char>, u64, Seq<char>) {
        (self.path@, self.lang@, self.access@, self.size, self.title@)
    }
}

/// A listed page: a map's "path" ("/"), "lang" ("?"), "access" ("?"), "size"
/// cut to 64 bits (0) and "title" ("(no title)"), defaults where missing.
pub open spec fn page_row_of(v: CborModel) -> Option<(Seq<char>, Seq<char>, Seq<char>, u64, Seq<char>)> {
    match v {
        CborModel::Mapping(e) => Some(
            (
                text_or(text_member(e, "path"@), "/"@),
                text_or(text_member(e, "lang"@), "?"@),
                text_or(text_member(e, "access"@), "?"@),
                match field_of(e, "size"@, FieldKind::Integer) {
                    Some(CborModel::Integer(n)) => n as u64,
                    _ => 0u64,
                },
                text_or(text_member(e, "title"@), "(no title)"@),
            ),
        ),
        _ => None,
    }
}

pub open spec fn page_rows_of(items: Seq<CborModel>) -> Seq<(Seq<char>, Seq<char>, Seq<char>, u64, Seq<char>)>
    decreases items.len(),
{
    if items.len() == 0 {
        Seq::empty()
    } else {
        let rest = page_rows_of(items.drop_last());
        match page_row_of(items.last()) {
            Some(r) => rest.push(r),
            None => rest,
        }
    }
}

/// What an inspection shows of a manifest.
#[derive(Debug, Clone, PartialEq, Eq)]
pub struct ManifestSummary {
    pub format: ManifestFormat,
    pub domain: String,
    pub name: String,
    pub description: String,
    pub languages: Vec<String>,
    pub default_language: String,
    pub total_pages: u64,
    pub total_size: u64,
    pub bundle_available: bool,
    pub generator: String,
    pub pages: Vec<PageRow>,
}

fn text_or_default(t: Option<&str>, d: &str) -> (r: String)
    ensures
        r@ == text_or(
            match t {
                Some(s) => Some(s@),
                None => None,
            },
            d@,
        ),
{
    match t {
        Some(s) => s.to_owned(),
        None => d.to_owned(),
    }
}

fn page_row(v: &CborValue) -> (r: Option<PageRow>)
    ensures
        match r {
            Some(row) => page_row_of(v@) == Some(row.model()),
            None => page_row_of(v@) is None,
        },
{
    match v {
        CborValue::Mapping(es) => {
            let e = es.as_slice();
            let size = match find_uint_in_map(e, "size") {
                Some(n) => n,
                None => 0,
            };
            Some(
                PageRow {
                    path: text_or_default(find_text_in_map(e, "path"), "/"),
                    lang: text_or_default(find_text_in_map(e, "lang"), "?"),
                    access: text_or_default(find_text_in_map(e, "access"), "?"),
                    size,
                    title: text_or_default(find_text_in_map(e, "title"), "(no title)"),
                },
            )
        },
        _ => None,
    }
}

/// The site metadata (key 2), meta section and page list of a manifest, with
/// the keys its shown format gives (`inspect_keys`), and defaults where a field
/// is missing: "unknown" domain, name and generator, empty description, "?"
/// default language, no pages and no size, no bundle.
pub fn summarize_manifest(doc: &CborValue) -> (r: ManifestSummary)
    ensures
        ({
            let (kind, version) = format_of(doc@);
            let (meta_key, pages_key) = if seq_contains(kind, "unified"@) { (6int, 5int) } else { (5int, 3int) };
            let site = lookup(doc@, CborModel::Integer(2));
            let meta = lookup(doc@, CborModel::Integer(meta_key));
            &&& r.format.kind_name@ == kind
            &&& r.format.spec_version@ == version
            &&& r.domain@ == text_or(opt_text(site, "domain"@), "unknown"@)
            &&& r.name@ == text_or(opt_text(site, "name"@), "unknown"@)
            &&& r.description@ == text_or(opt_text(site, "description"@), ""@)
            &&& r.languages@.map_values(|s: String| s@) == opt_texts(site, "languages"@)
            &&& r.default_language@ == text_or(opt_text(site, "default_language"@), "?"@)
            &&& r.total_pages == (match opt_uint(meta, "total_pages"@) { Some(n) => n, None => 0u64 })
            &&& r.total_size == (match opt_uint(meta, "total_size"@) { Some(n) => n, None => 0u64 })
            &&& r.bundle_available == (match opt_bool(meta, "bundle_available"@) { Some(b) => b, None => false })
            &&& r.generator@ == text_or(opt_text(meta, "generator"@), "unknown"@)
            &&& r.pages@.map_values(|p: PageRow| p.model()) == (match lookup(doc@, CborModel::Integer(pages_key)) {
                Some(CborModel::Array(items)) => page_rows_of(items),
                _ => Seq::empty(),
            })
        }),
{
    let format = manifest_format(doc);
    let (meta_key, pages_key) = inspect_keys(format.kind_name.as_str());
    let k2 = CborValue::Integer(2);
    let km = CborValue::Integer(meta_key as i128);
    let kp = CborValue::Integer(pages_key as i128);
    let site = get_map_value(doc, &k2);
    let meta = get_map_value(doc, &km);
    let domain = text_or_default(get_text_field(site, "domain"), "unknown");
    let name = text_or_default(get_text_field(site, "name"), "unknown");
    let description = text_or_default(get_text_field(site, "description"), "");
    let languages = get_array_field(site, "languages");
    let default_language = text_or_default(get_text_field(site, "default_language"), "?");
    let total_pages = match get_uint_field(meta, "total_pages") {
        Some(n) => n,
        None => 0,
    };
    let total_size = match get_uint_field(meta, "total_size") {
        Some(n) => n,
        None => 0,
    };
    let bundle_available = match get_bool_field(meta, "bundle_available") {
        Some(b) => b,
        None => false,
    };
    let generator = text_or_default(get_text_field(meta, "generator"), "unknown");
    let mut pages: Vec<PageRow> = Vec::new();
    match get_array_value(doc, &kp) {
        Some(items) => {
            proof {
                lemma_models_of(items@);
            }
            let mut i: usize = 0;
            while i < items.len()
                invariant
                    i <= items.len(),
                    models_of(items@).len() == items@.len(),
                    forall|j: int| 0 <= j < items@.len() ==> #[trigger] models_of(items@)[j] == items@[j]@,
                    pages@.map_values(|p: PageRow| p.model()) == page_rows_of(models_of(items@).take(i as int)),
                decreases items.len() - i,
            {
                let ghost ms = models_of(items@);
                assert(ms.take(i + 1).drop_last() =~= ms.take(i as int));
                assert(ms.take(i + 1).last() == items@[i as int]@);
                let ghost before = pages@;
                match page_row(&items[i]) {
                    Some(row) => {
                        pages.push(row);
                        assert(pages@.map_values(|p: PageRow| p.model()) =~= before.map_values(|p: PageRow| p.model()).push(
                            pages@.last().model(),
                        ));
                    },
                    None => {},
                }
                i = i + 1;
            }
            assert(models_of(items@).take(items.len() as int) =~= models_of(items@));
        },
        None => {
            assert(pages@.map_values(|p: PageRow| p.model()) =~= Seq::empty());
        },
    }
    ManifestSummary {
        format,
        domain,
        name,
        description,
        languages,
        default_language,
        total_pages,
        total_size,
        bundle_available,
        generator,
        pages,
    }
}

} // verus!

verus! {

// ── Collected pages ──

/// No two members share a name.
pub open spec fn names_unique(s: Seq<(String, JsonValue)>) -> bool {
    forall|i: int, j: int| 0 <= i < j < s.len() ==> (#[trigger] s[i]).0@ != (#[trigger] s[j]).0@
}

/// Sets the content collected for a page path, replacing earlier content of
/// the same path (a map from paths, as `BTreeMap::insert`).
pub fn put_page(pages: &mut Vec<(String, JsonValue)>, path: String, content: JsonValue)
    requires
        names_unique(old(pages)@),
    ensures
        names_unique(final(pages)@),
        object_model(final(pages)@) == object_model(old(pages)@).insert(path@, content@),
{
    let mut i: usize = 0;
    while i < pages.len()
        invariant
            i <= pages.len(),
            pages@ == old(pages)@,
            names_unique(pages@),
            forall|j: int| 0 <= j < i ==> (#[trigger] pages@[j]).0@ != path@,
        decreases pages.len() - i,
    {
        if crate::text::str_eq(pages[i].0.as_str(), path.as_str()) {
            let ghost before = pages@;
            pages.set(i, (path, content));
            proof {
                lemma_replace_member(before, i as int, pages@[i as int].0, pages@[i as int].1);
                assert(pages@ == before.update(i as int, (pages@[i as int].0, pages@[i as int].1)));
            }
            return;
        }
        i = i + 1;
    }
    proof {
        crate::json::lemma_object_push(pages@, path, content);
    }
    pages.push((path, content));
}

/// Replacing the only member of a name replaces that name's value.
proof fn lemma_replace_member(s: Seq<(String, JsonValue)>, i: int, k: String, v: JsonValue)
    requires
        names_unique(s),
        0 <= i < s.len(),
        s[i].0@ == k@,
    ensures
        names_unique(s.update(i, (k, v))),
        object_model(s.update(i, (k, v))) == object_model(s).insert(k@, json_model(v)),
    decreases s.len(),
{
    let t = s.update(i, (k, v));
    assert forall|a: int, b: int| 0 <= a < b < t.len() implies (#[trigger] t[a]).0@ != (#[trigger] t[b]).0@ by {
        assert(s[a].0@ != s[b].0@);
    }
    if i == s.len() - 1 {
        assert(t.drop_last() =~= s.drop_last());
        assert(object_model(s) == object_model(s.drop_last()).insert(s.last().0@, json_model(s.last().1)));
        assert(object_model(s).insert(k@, json_model(v)) =~= object_model(s.drop_last()).insert(k@, json_model(v)));
    } else {
        lemma_replace_member(s.drop_last(), i, k, v);
        assert(t.drop_last() =~= s.drop_last().update(i, (k, v)));
        assert(s.last().0@ != k@);
        assert(object_model(t) =~= object_model(s).insert(k@, json_model(v)));
    }
}

/// The name under which a fetched page is saved: its path without leading
/// slashes, its other slashes turned into underscores, then without leading
/// underscores, "index" where nothing is left; ".json" appended.
pub open spec fn saved_name_of(path: Seq<char>) -> Seq<char> {
    let s = trim_leading(replace_char(trim_leading(path, '/'), '/', '_'), '_');
    (if s.len() == 0 { "index"@ } else { s }) + ".json"@
}

/// The name under which a fetched page is saved (`saved_name_of`).
pub fn saved_page_name(path: &str) -> (r: String)
    ensures
        r@ == saved_name_of(path@),
{
    let cs = chars_of(path);
    let start = leading_run(&cs, '/');
    let mut out: Vec<char> = Vec::new();
    let mut i: usize = start;
    while i < cs.len()
        invariant
            start <= i <= cs.len(),
            out@ == replace_char(cs@.subrange(start as int, i as int), '/', '_'),
        decreases cs.len() - i,
    {
        let c = cs[i];
        out.push(if c == '/' { '_' } else { c });
        i = i + 1;
        assert(out@ =~= replace_char(cs@.subrange(start as int, i as int), '/', '_'));
    }
    assert(cs@.subrange(start as int, cs.len() as int) =~= cs@.skip(start as int));
    let k = leading_run(&out, '_');
    let mut r = if k == out.len() {
        String::from_str("index")
    } else {
        crate::text::string_of_range(&out, k, out.len())
    };
    assert(out@.subrange(k as int, out.len() as int) =~= out@.skip(k as int));
    append_literal(&mut r, ".json");
    r
}

/// The JSON output of a fetch: the site's domain, the number of pages and the
/// pages by path.
pub open spec fn fetch_output_of(domain: Seq<char>, pages: Seq<(String, JsonValue)>) -> JsonModel {
    JsonModel::Object(
        Map::empty().insert("site"@, JsonModel::Str(domain)).insert("pages_count"@, JsonModel::Int(pages.len() as int)).insert(
            "pages"@,
            JsonModel::Object(object_model(pages)),
        ),
    )
}

/// The JSON output of a fetch (`fetch_output_of`).
pub fn fetch_output(domain: &str, pages: Vec<(String, JsonValue)>) -> (r: JsonValue)
    requires
        names_unique(pages@),
    ensures
        r@ == fetch_output_of(domain@, pages@),
{
    let ghost pv = pages@;
    let count = pages.len();
    let mut m: Vec<(String, JsonValue)> = Vec::new();
    crate::json::obj_insert(&mut m, "site", JsonValue::Str(domain.to_owned()));
    crate::json::obj_insert(&mut m, "pages_count", JsonValue::Int(count as i128));
    crate::json::obj_insert(&mut m, "pages", JsonValue::Object(pages));
    assert(object_model(Seq::<(String, JsonValue)>::empty()) == Map::<Seq<char>, JsonModel>::empty());
    JsonValue::Object(m)
}

/// The pages of a bundle: what its page map (key 3) holds under text keys,
/// each page as JSON (`page_json`), a later page replacing an earlier one of
/// the same path.
pub open spec fn bundle_pages_of(bundle: CborModel) -> Map<Seq<char>, JsonModel> {
    match lookup(bundle, CborModel::Integer(3)) {
        Some(CborModel::Mapping(entries)) => bundle_entries(entries),
        _ => Map::empty(),
    }
}

pub open spec fn bundle_entries(entries: Seq<(CborModel, CborModel)>) -> Map<Seq<char>, JsonModel>
    decreases entries.len(),
{
    if entries.len() == 0 {
        Map::empty()
    } else {
        let rest = bundle_entries(entries.drop_last());
        match entries.last().0 {
            CborModel::Text(path) => rest.insert(path, crate::content::page_json(entries.last().1)),
            _ => rest,
        }
    }
}

/// The pages of a bundle document (`bundle_pages_of`).
pub fn bundle_pages(bundle: &CborValue) -> (r: Vec<(String, JsonValue)>)
    requires
        bundle.wf(),
    ensures
        names_unique(r@),
        object_model(r@) == bundle_pages_of(bundle@),
{
    let mut pages: Vec<(String, JsonValue)> = Vec::new();
    assert(object_model(pages@) =~= Map::empty());
    let k3 = CborValue::Integer(3);
    let found = get_map_value(bundle, &k3);
    match found {
        Some(CborValue::Mapping(entries)) => {
            proof {
                crate::lookup::lemma_lookup_wf(bundle@, k3@);
                assert(crate::value::model_wf(found.unwrap()@));
                assert(found.unwrap()@ == CborModel::Mapping(entry_models_of(entries@)));
                assert(crate::value::all_entries_wf(entry_models_of(entries@)));
                crate::value::lemma_entry_models_of(entries@);
                crate::value::lemma_all_entries_wf(entry_models_of(entries@));
            }
            let mut i: usize = 0;
            while i < entries.len()
                invariant
                    i <= entries.len(),
                    entry_models_of(entries@).len() == entries@.len(),
                    forall|j: int| 0 <= j < entries@.len() ==> #[trigger] entry_models_of(entries@)[j] == (entries@[j].0@, entries@[j].1@),
                    forall|j: int| 0 <= j < entries@.len() ==> crate::value::model_wf(#[trigger] entry_models_of(entries@)[j].0) && crate::value::model_wf(entry_models_of(entries@)[j].1),
                    names_unique(pages@),
                    object_model(pages@) == bundle_entries(entry_models_of(entries@).take(i as int)),
                decreases entries.len() - i,
            {
                let ghost es = entry_models_of(entries@);
                assert(es.take(i + 1).drop_last() =~= es.take(i as int));
                assert(es.take(i + 1).last() == es[i as int]);
                match &entries[i].0 {
                    CborValue::Text(path) => {
                        assert(crate::value::model_wf(entry_models_of(entries@)[i as int].0));
                        assert(entries@[i as int].1.wf());
                        let content = crate::content::extract_page_content(&entries[i].1);
                        put_page(&mut pages, path.clone(), content);
                    },
                    _ => {},
                }
                i = i + 1;
            }
            assert(entry_models_of(entries@).take(entries.len() as int) =~= entry_models_of(entries@));
        },
        _ => {},
    }
    pages
}

/// The pages a crawl fetches one by one: every listed page whose access does
/// not need credentials, with its file name.
pub open spec fn fetch_targets_of(entries: Seq<(Seq<char>, Seq<char>, Option<Seq<char>>)>) -> Seq<(Seq<char>, Seq<char>)>
    decreases entries.len(),
{
    if entries.len() == 0 {
        Seq::empty()
    } else {
        let rest = fetch_targets_of(entries.drop_last());
        let e = entries.last();
        if requires_auth(e.1) {
            rest
        } else {
            rest.push((e.0, page_filename(e.0)))
        }
    }
}

/// The pages a crawl fetches one by one, with their file names.
pub fn fetch_targets(entries: &Vec<PageEntry>) -> (r: Vec<(String, String)>)
    ensures
        r@.map_values(|t: (String, String)| (t.0@, t.1@)) == fetch_targets_of(entries@.map_values(|e: PageEntry| e.model())),
{
    let ghost ms = entries@.map_values(|e: PageEntry| e.model());
    let mut r: Vec<(String, String)> = Vec::new();
    let mut i: usize = 0;
    while i < entries.len()
        invariant
            i <= entries.len(),
            ms == entries@.map_values(|e: PageEntry| e.model()),
            r@.map_values(|t: (String, String)| (t.0@, t.1@)) == fetch_targets_of(ms.take(i as int)),
        decreases entries.len() - i,
    {
        assert(ms.take(i + 1).drop_last() =~= ms.take(i as int));
        assert(ms.take(i + 1).last() == entries@[i as int].model());
        let ghost before = r@;
        if !needs_auth(entries[i].access.as_str()) {
            let filename = path_to_filename(entries[i].path.as_str());
            r.push((entries[i].path.clone(), filename));
            assert(r@.map_values(|t: (String, String)| (t.0@, t.1@)) =~= before.map_values(
                |t: (String, String)| (t.0@, t.1@),
            ).push((entries@[i as int].path@, page_filename(entries@[i as int].path@))));
        }
        i = i + 1;
    }
    assert(ms.take(entries.len() as int) =~= ms);
    r
}

/// Where a fetched page's content hash differs from the one its entry lists,
/// the listed and the computed hash (lowercase hexadecimal SHA-256).
pub fn hash_mismatch(expected: &Option<String>, bytes: &[u8]) -> (r: Option<(String, String)>)
    ensures
        match expected {
            Some(h) => if h@ == hex_text(sha256_spec(bytes@), false) {
                r is None
            } else {
                r matches Some(p) && p.0@ == h@ && p.1@ == hex_text(sha256_spec(bytes@), false)
            },
            None => r is None,
        },
{
    match expected {
        Some(h) => {
            let computed = sha256_hex(bytes);
            if computed == *h {
                None
            } else {
                Some((h.clone(), computed))
            }
        },
        None => None,
    }
}

} // verus!

verus! {

// ── Search ──

/// The lowercase form of `s` contains the query.
pub open spec fn text_hit(s: Seq<char>, q: Seq<char>) -> bool {
    seq_contains(crate::text::lowercase_of(s), q)
}

/// A member whose text contains the query.
pub open spec fn member_hit(block: JsonModel, name: Seq<char>, q: Seq<char>) -> bool {
    match crate::json::member_str(block, name) {
        Some(s) => text_hit(s, q),
        None => false,
    }
}

/// The items of the array member `name`, where it is an array.
pub open spec fn member_array(block: JsonModel, name: Seq<char>) -> Seq<JsonModel> {
    match block {
        JsonModel::Object(m) => if m.contains_key(name) && m[name] is Array {
            m[name]->Array_0
        } else {
            Seq::empty()
        },
        _ => Seq::empty(),
    }
}

/// A list item that matches: a string, or an object whose "term" or "def" matches.
pub open spec fn item_hit(item: JsonModel, q: Seq<char>) -> bool {
    (item matches JsonModel::Str(s) && text_hit(s, q)) || member_hit(item, "term"@, q) || member_hit(item, "def"@, q)
}

/// A string that matches.
pub open spec fn str_hit(v: JsonModel, q: Seq<char>) -> bool {
    v matches JsonModel::Str(s) && text_hit(s, q)
}

/// A table row (an array) one of whose string cells matches.
pub open spec fn row_hit(row: JsonModel, q: Seq<char>) -> bool {
    row matches JsonModel::Array(cells) && exists|c: int| 0 <= c < cells.len() && #[trigger] str_hit(cells[c], q)
}

/// A content block matches a (lowercase) query when the lowercase form of its
/// type, of one of its text members ("text", "alt", "attribution", "href",
/// "src", "description"), of one of its list items (or their "term" or "def"),
/// of one of its table headers or of one of its table cells contains it.
pub open spec fn block_hit(block: JsonModel, q: Seq<char>) -> bool {
    let items = member_array(block, "items"@);
    let headers = member_array(block, "headers"@);
    let rows = member_array(block, "rows"@);
    ||| member_hit(block, "type"@, q)
    ||| member_hit(block, "text"@, q)
    ||| member_hit(block, "alt"@, q)
    ||| member_hit(block, "attribution"@, q)
    ||| member_hit(block, "href"@, q)
    ||| member_hit(block, "src"@, q)
    ||| member_hit(block, "description"@, q)
    ||| exists|i: int| 0 <= i < items.len() && #[trigger] item_hit(items[i], q)
    ||| exists|i: int| 0 <= i < headers.len() && #[trigger] str_hit(headers[i], q)
    ||| exists|i: int| 0 <= i < rows.len() && #[trigger] row_hit(rows[i], q)
}

fn member_matches(block: &JsonValue, name: &str, q: &str) -> (r: bool)
    ensures
        r == member_hit(block@, name@, q@),
{
    match crate::json::get_str(block, name) {
        Some(s) => str_contains(crate::text::to_lowercase(s).as_str(), q),
        None => false,
    }
}

fn str_matches(v: &JsonValue, q: &str) -> (r: bool)
    ensures
        r == str_hit(v@, q@),
{
    match v {
        JsonValue::Str(s) => str_contains(crate::text::to_lowercase(s.as_str()).as_str(), q),
        _ => false,
    }
}

fn array_member<'a>(block: &'a JsonValue, name: &str) -> (r: Option<&'a Vec<JsonValue>>)
    ensures
        match r {
            Some(items) => crate::json::json_models(items@) == member_array(block@, name@),
            None => member_array(block@, name@) == Seq::<JsonModel>::empty(),
        },
{
    match crate::json::json_get(block, name) {
        Some(v) => crate::json::json_as_array(v),
        None => None,
    }
}

#[verifier::loop_isolation(false)]
fn row_matches(row: &JsonValue, q: &str) -> (r: bool)
    ensures
        r == row_hit(row@, q@),
{
    match row {
        JsonValue::Array(cells) => {
            proof {
                crate::json::lemma_json_models(cells@);
            }
            let mut i: usize = 0;
            while i < cells.len()
                invariant
                    i <= cells.len(),
                    crate::json::json_models(cells@).len() == cells@.len(),
                    forall|j: int| 0 <= j < cells@.len() ==> #[trigger] crate::json::json_models(cells@)[j] == cells@[j]@,
                    forall|j: int| 0 <= j < i ==> !#[trigger] str_hit(crate::json::json_models(cells@)[j], q@),
                decreases cells.len() - i,
            {
                if str_matches(&cells[i], q) {
                    assert(str_hit(crate::json::json_models(cells@)[i as int], q@));
                    return true;
                }
                i = i + 1;
            }
            false
        },
        _ => false,
    }
}

/// Whether a content block matches a lowercase query (`block_hit`).
#[verifier::loop_isolation(false)]
pub fn block_matches_content(block: &JsonValue, query_lower: &str) -> (r: bool)
    ensures
        r == block_hit(block@, query_lower@),
{
    let q = query_lower;
    if member_matches(block, "type", q) || member_matches(block, "text", q) || member_matches(block, "alt", q)
        || member_matches(block, "attribution", q) || member_matches(block, "href", q) || member_matches(block, "src", q)
        || member_matches(block, "description", q) {
        return true;
    }
    match array_member(block, "items") {
        Some(items) => {
            proof {
                crate::json::lemma_json_models(items@);
            }
            let mut i: usize = 0;
            while i < items.len()
                invariant
                    i <= items.len(),
                    crate::json::json_models(items@) == member_array(block@, "items"@),
                    crate::json::json_models(items@).len() == items@.len(),
                    forall|j: int| 0 <= j < items@.len() ==> #[trigger] crate::json::json_models(items@)[j] == items@[j]@,
                    forall|j: int| 0 <= j < i ==> !#[trigger] item_hit(member_array(block@, "items"@)[j], q@),
                decreases items.len() - i,
            {
                if str_matches(&items[i], q) || member_matches(&items[i], "term", q) || member_matches(&items[i], "def", q) {
                    assert(item_hit(member_array(block@, "items"@)[i as int], q@));
                    return true;
                }
                i = i + 1;
            }
        },
        None => {},
    }
    match array_member(block, "headers") {
        Some(headers) => {
            proof {
                crate::json::lemma_json_models(headers@);
            }
            let mut i: usize = 0;
            while i < headers.len()
                invariant
                    i <= headers.len(),
                    crate::json::json_models(headers@) == member_array(block@, "headers"@),
                    crate::json::json_models(headers@).len() == headers@.len(),
                    forall|j: int| 0 <= j < headers@.len() ==> #[trigger] crate::json::json_models(headers@)[j] == headers@[j]@,
                    forall|j: int| 0 <= j < i ==> !#[trigger] str_hit(member_array(block@, "headers"@)[j], q@),
                decreases headers.len() - i,
            {
                if str_matches(&headers[i], q) {
                    assert(str_hit(member_array(block@, "headers"@)[i as int], q@));
                    return true;
                }
                i = i + 1;
            }
        },
        None => {},
    }
    match array_member(block, "rows") {
        Some(rows) => {
            proof {
                crate::json::lemma_json_models(rows@);
            }
            let mut i: usize = 0;
            while i < rows.len()
                invariant
                    i <= rows.len(),
                    crate::json::json_models(rows@) == member_array(block@, "rows"@),
                    crate::json::json_models(rows@).len() == rows@.len(),
                    forall|j: int| 0 <= j < rows@.len() ==> #[trigger] crate::json::json_models(rows@)[j] == rows@[j]@,
                    forall|j: int| 0 <= j < i ==> !#[trigger] row_hit(member_array(block@, "rows"@)[j], q@),
                decreases rows.len() - i,
            {
                if row_matches(&rows[i], q) {
                    assert(row_hit(member_array(block@, "rows"@)[i as int], q@));
                    return true;
                }
                i = i + 1;
            }
        },
        None => {},
    }
    false
}

} // verus!
