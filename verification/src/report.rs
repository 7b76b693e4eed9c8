//! What the crawler reports and sends: the verification of a document file,
//! the summary of a diff manifest, a Doléance feedback document, and the
//! matches of a search.
use vstd::prelude::*;
use crate::value::{CborValue, CborModel, models_of, lemma_models_of, entry_models_of, t, u, ii, arr};
use crate::lookup::{FieldKind, field_of, entries_of, lookup, get_map_value, get_map_value_owned, get_uint_field, get_bytes_field, get_array_value, find_text_in_map};
use crate::crawl::{document_of, parse_cbor_document, trim_trailing, truncated};
use crate::json::{json_model, object_model};
use crate::codec::is_self_described_prefix;
use crate::digest::{hex_text, sha256_spec, sha256_hex, hex_encode};
use crate::text::{decimal, signed_decimal, u64_decimal, i128_decimal, str_eq, push_char, chars_of};
use crate::site::{tx, cmap_of, cmap, push_entry};
use crate::json::{JsonValue, JsonModel, member_str, get_str, json_get, json_as_array, json_models, lemma_json_models};
use crate::render::{text_or, array_member};

verus! {

// ── Verifying a document file ──

/// The report on a document file: its name and size, then either the missing
/// self-described tag, or the tag, the document type and what it is, the
/// version, the SHA-256 and the verdict. `None` where the bytes hold no
/// document after the tag.
pub open spec fn verify_report(file: Seq<char>, bytes: Seq<u8>) -> Option<Seq<Seq<char>>> {
    let head = "File: "@ + file + " ("@ + decimal(bytes.len()) + " bytes)"@;
    if !is_self_described_prefix(bytes) {
        Some(seq![head, "ERROR: Missing self-described CBOR tag (D9 D9 F7)"@])
    } else {
        match document_of(bytes) {
            None => None,
            Some(doc) => {
                let l1 = seq![head, "Self-described tag: OK (D9 D9 F7)"@];
                let l2 = match lookup(doc, CborModel::Integer(0)) {
                    Some(CborModel::Text(ty)) => l1.push("Document type: "@ + ty).push(
                        if ty == "cbor-web-manifest"@ {
                            "Valid manifest structure"@
                        } else if ty == "cbor-web-page"@ {
                            "Valid page structure"@
                        } else if ty == "cbor-web-bundle"@ {
                            "Valid bundle structure"@
                        } else {
                            "Unknown document type: "@ + ty
                        },
                    ),
                    _ => l1,
                };
                let l3 = match lookup(doc, CborModel::Integer(1)) {
                    Some(CborModel::Integer(v)) => l2.push("Version: "@ + signed_decimal(v)),
                    _ => l2,
                };
                Some(l3.push("SHA-256: "@ + hex_text(sha256_spec(bytes), false)).push("Verification: PASS"@))
            },
        }
    }
}

fn cat2(a: &str, b: &str) -> (r: String)
    ensures
        r@ == a@ + b@,
{
    let mut r = String::from_str(a);
    r.append(b);
    r
}

/// The report on a document file (`verify_report`); the decoder's message
/// where the bytes hold no document after the tag.
pub fn verify_lines(file: &str, bytes: &[u8]) -> (r: Result<Vec<String>, String>)
    ensures
        r is Ok <==> verify_report(file@, bytes@) is Some,
        r matches Ok(lines) ==> verify_report(file@, bytes@) == Some(lines@.map_values(|s: String| s@)),
{
    let mut lines: Vec<String> = Vec::new();
    let mut head = cat2("File: ", file);
    head.append(" (");
    head.append(u64_decimal(bytes.len() as u64).as_str());
    head.append(" bytes)");
    lines.push(head);
    if !crate::crawl::has_self_described_tag(bytes) {
        lines.push(String::from_str("ERROR: Missing self-described CBOR tag (D9 D9 F7)"));
        proof {
            assert(lines@.map_values(|s: String| s@) =~= verify_report(file@, bytes@).unwrap());
        }
        return Ok(lines);
    }
    let doc = parse_cbor_document(bytes)?;
    lines.push(String::from_str("Self-described tag: OK (D9 D9 F7)"));
    let ghost l1 = lines@.map_values(|s: String| s@);
    match get_map_value_owned(&doc, &ii(0)) {
        Some(CborValue::Text(ty)) => {
            lines.push(cat2("Document type: ", ty.as_str()));
            let what = if str_eq(ty.as_str(), "cbor-web-manifest") {
                String::from_str("Valid manifest structure")
            } else if str_eq(ty.as_str(), "cbor-web-page") {
                String::from_str("Valid page structure")
            } else if str_eq(ty.as_str(), "cbor-web-bundle") {
                String::from_str("Valid bundle structure")
            } else {
                cat2("Unknown document type: ", ty.as_str())
            };
            lines.push(what);
        },
        _ => {},
    }
    proof {
        crate::lookup::lemma_lookup_wf(doc@, CborModel::Integer(1));
    }
    match get_map_value_owned(&doc, &ii(1)) {
        Some(CborValue::Integer(v)) => {
            lines.push(cat2("Version: ", i128_decimal(v).as_str()));
        },
        _ => {},
    }
    lines.push(cat2("SHA-256: ", sha256_hex(bytes).as_str()));
    lines.push(String::from_str("Verification: PASS"));
    proof {
        assert(lines@.map_values(|s: String| s@) =~= verify_report(file@, bytes@).unwrap());
    }
    Ok(lines)
}

// ── Diff manifest ──

/// The rules of the diff box.
pub open spec fn box_top() -> Seq<char> {
    "╔══════════════════════════════════════════════════╗"@
}

pub open spec fn box_middle() -> Seq<char> {
    "╠══════════════════════════════════════════════════╣"@
}

pub open spec fn box_bottom() -> Seq<char> {
    "╚══════════════════════════════════════════════════╝"@
}

/// The sign of a change: `+` added, `~` modified, `-` removed, `?` otherwise.
pub open spec fn action_icon(action: Seq<char>) -> Seq<char> {
    if action == "added"@ {
        "+"@
    } else if action == "modified"@ {
        "~"@
    } else if action == "removed"@ {
        "-"@
    } else {
        "?"@
    }
}

/// The lines of the changes that are maps: sign, path and action.
pub open spec fn change_lines(changes: Seq<CborModel>) -> Seq<Seq<char>>
    decreases changes.len(),
{
    if changes.len() == 0 {
        Seq::empty()
    } else {
        let before = change_lines(changes.drop_last());
        match changes.last() {
            CborModel::Mapping(entries) => {
                let path = match field_of(entries, "path"@, FieldKind::Text) {
                    Some(CborModel::Text(p)) => p,
                    _ => "?"@,
                };
                let action = match field_of(entries, "action"@, FieldKind::Text) {
                    Some(CborModel::Text(a)) => a,
                    _ => "?"@,
                };
                before.push("║  "@ + action_icon(action) + " "@ + path + " ["@ + action + "]"@)
            },
            _ => before,
        }
    }
}

/// An integer field of a map, where it fits a `u64`.
pub open spec fn uint_field(m: CborModel, key: Seq<char>) -> Option<u64> {
    match field_of(entries_of(m), key, FieldKind::Integer) {
        Some(CborModel::Integer(n)) => if 0 <= n <= u64::MAX {
            Some(n as u64)
        } else {
            None
        },
        _ => None,
    }
}

pub open spec fn uint_or_zero(m: CborModel, key: Seq<char>) -> nat {
    match uint_field(m, key) {
        Some(n) => n as nat,
        None => 0,
    }
}

/// The head of a diff summary: the box's title, the diff's version and the
/// start of its base hash, where present.
pub open spec fn diff_head(diff: CborModel) -> Seq<Seq<char>> {
    let l0 = seq![box_top(), "║  CBOR-Web Diff Manifest"@, box_middle()];
    let l1 = match uint_field(diff, "diff_version"@) {
        Some(v) => l0.push("║  Diff version:  "@ + decimal(v as nat)),
        None => l0,
    };
    match field_of(entries_of(diff), "base_version_hash"@, FieldKind::Bytes) {
        Some(CborModel::Bytes(h)) => l1.push(
            "║  Base hash:     "@ + hex_text(h.take(if h.len() < 16 { h.len() as int } else { 16 }), false) + "..."@,
        ),
        _ => l1,
    }
}

/// The page statistics of a diff, where present.
pub open spec fn diff_stats(diff: CborModel) -> Seq<Seq<char>> {
    match lookup(diff, CborModel::Text("stats"@)) {
        Some(st) => seq![
            "║  Pages added:    "@ + decimal(uint_or_zero(st, "pages_added"@)),
            "║  Pages modified: "@ + decimal(uint_or_zero(st, "pages_modified"@)),
            "║  Pages removed:  "@ + decimal(uint_or_zero(st, "pages_removed"@)),
            "║  Total pages:    "@ + decimal(uint_or_zero(st, "total_pages_now"@)),
        ],
        None => Seq::empty(),
    }
}

/// The changes of a diff, where present.
pub open spec fn diff_changes(diff: CborModel) -> Seq<Seq<char>> {
    match lookup(diff, CborModel::Text("changes"@)) {
        Some(CborModel::Array(items)) => seq![box_middle(), "║  Changes:"@] + change_lines(items),
        _ => Seq::empty(),
    }
}

/// The summary of a diff manifest: its version, the start of its base hash,
/// its page statistics and its changes, where present, in a box.
pub open spec fn diff_summary(diff: CborModel) -> Seq<Seq<char>> {
    (diff_head(diff) + diff_stats(diff) + diff_changes(diff)).push(box_bottom())
}

fn uint_or_zero_of(m: &CborValue, key: &str) -> (r: u64)
    ensures
        r as nat == uint_or_zero(m@, key@),
{
    match get_uint_field(Some(m), key) {
        Some(n) => n,
        None => 0,
    }
}

/// The summary of a diff manifest (`diff_summary`).
pub fn diff_manifest_lines(diff: &CborValue) -> (r: Vec<String>)
    ensures
        r@.map_values(|s: String| s@) == diff_summary(diff@),
{
    let mut lines: Vec<String> = Vec::new();
    lines.push(String::from_str("╔══════════════════════════════════════════════════╗"));
    lines.push(String::from_str("║  CBOR-Web Diff Manifest"));
    lines.push(String::from_str("╠══════════════════════════════════════════════════╣"));
    match get_uint_field(Some(diff), "diff_version") {
        Some(v) => lines.push(cat2("║  Diff version:  ", u64_decimal(v).as_str())),
        None => {},
    }
    match get_bytes_field(Some(diff), "base_version_hash") {
        Some(h) => {
            let n: usize = if h.len() < 16 { h.len() } else { 16 };
            let mut head: Vec<u8> = Vec::new();
            let mut i: usize = 0;
            while i < n
                invariant
                    i <= n <= h.len(),
                    head@ == h@.take(i as int),
                decreases n - i,
            {
                head.push(h[i]);
                i = i + 1;
                assert(head@ =~= h@.take(i as int));
            }
            let mut line = cat2("║  Base hash:     ", hex_encode(head.as_slice()).as_str());
            line.append("...");
            lines.push(line);
        },
        None => {},
    }
    let ghost l2 = lines@.map_values(|s: String| s@);
    assert(l2 == diff_head(diff@));
    match get_map_value(diff, &t("stats")) {
        Some(st) => {
            lines.push(cat2("║  Pages added:    ", u64_decimal(uint_or_zero_of(st, "pages_added")).as_str()));
            lines.push(cat2("║  Pages modified: ", u64_decimal(uint_or_zero_of(st, "pages_modified")).as_str()));
            lines.push(cat2("║  Pages removed:  ", u64_decimal(uint_or_zero_of(st, "pages_removed")).as_str()));
            lines.push(cat2("║  Total pages:    ", u64_decimal(uint_or_zero_of(st, "total_pages_now")).as_str()));
        },
        None => {},
    }
    let ghost l3 = lines@.map_values(|s: String| s@);
    assert(l3 =~= diff_head(diff@) + diff_stats(diff@));
    match get_array_value(diff, &t("changes")) {
        Some(changes) => {
            lines.push(String::from_str("╠══════════════════════════════════════════════════╣"));
            lines.push(String::from_str("║  Changes:"));
            let ghost head = lines@.map_values(|s: String| s@);
            let ghost m = models_of(changes@);
            proof {
                lemma_models_of(changes@);
                assert(m.take(0) =~= Seq::<CborModel>::empty());
                assert(lines@.map_values(|s: String| s@) =~= head + change_lines(m.take(0)));
            }
            let mut i: usize = 0;
            while i < changes.len()
                invariant
                    i <= changes.len(),
                    m == models_of(changes@),
                    m.len() == changes.len(),
                    forall|j: int| 0 <= j < changes.len() ==> #[trigger] m[j] == changes@[j]@,
                    lines@.map_values(|s: String| s@) == head + change_lines(m.take(i as int)),
                decreases changes.len() - i,
            {
                assert(m.take(i + 1).drop_last() =~= m.take(i as int));
                match &changes[i] {
                    CborValue::Mapping(entries) => {
                        let path = match find_text_in_map(entries.as_slice(), "path") {
                            Some(p) => p,
                            None => "?",
                        };
                        let action = match find_text_in_map(entries.as_slice(), "action") {
                            Some(a) => a,
                            None => "?",
                        };
                        let icon = if str_eq(action, "added") {
                            "+"
                        } else if str_eq(action, "modified") {
                            "~"
                        } else if str_eq(action, "removed") {
                            "-"
                        } else {
                            "?"
                        };
                        let mut line = cat2("║  ", icon);
                        line.append(" ");
                        line.append(path);
                        line.append(" [");
                        line.append(action);
                        line.append("]");
                        let ghost before = lines@;
                        lines.push(line);
                        assert(lines@.map_values(|s: String| s@) =~= before.map_values(|s: String| s@).push(
                            lines@.last()@,
                        ));
                    },
                    _ => {},
                }
                i = i + 1;
            }
            assert(m.take(changes.len() as int) =~= m);
        },
        None => {},
    }
    assert(lines@.map_values(|s: String| s@) =~= diff_head(diff@) + diff_stats(diff@) + diff_changes(diff@));
    lines.push(String::from_str("╚══════════════════════════════════════════════════╝"));
    proof {
        assert(lines@.map_values(|s: String| s@) =~= diff_summary(diff@));
    }
    lines
}

// ── Doléance feedback ──

/// `s` without the repeated `prefix` at its start (`trim_start_matches`).
pub open spec fn trim_prefix_all(s: Seq<char>, prefix: Seq<char>) -> Seq<char>
    decreases s.len(),
{
    if prefix.len() > 0 && crate::text::seq_starts_with(s, prefix) {
        trim_prefix_all(s.skip(prefix.len() as int), prefix)
    } else {
        s
    }
}

/// The domain of a site address: without trailing slashes, then without a
/// leading `https://`, then without a leading `http://`.
pub open spec fn domain_of(base: Seq<char>) -> Seq<char> {
    trim_prefix_all(trim_prefix_all(trim_trailing(base, '/'), "https://"@), "http://"@)
}

/// A feedback signal: its kind (`missing_data` where none is given), details
/// and block type.
pub open spec fn signal_model(s: JsonModel) -> CborModel {
    cmap_of(
        seq![
            (tx("signal"@), tx(text_or(member_str(s, "signal"@), "missing_data"@))),
            (tx("details"@), tx(text_or(member_str(s, "details"@), Seq::empty()))),
            (tx("block_type"@), tx(text_or(member_str(s, "block_type"@), Seq::empty()))),
        ],
    )
}

/// The signals of feedback given as JSON.
pub open spec fn signals_of(feedback: JsonModel) -> Seq<CborModel> {
    match array_member(feedback, "signals"@) {
        Some(items) => items.map_values(|s: JsonModel| signal_model(s)),
        None => Seq::empty(),
    }
}

/// The entries of a Doléance document: its type and version, the site's
/// domain and the page's path ("/" where none is given), the signals, and
/// the agent with the time.
pub open spec fn doleance_entries(base: Seq<char>, feedback: JsonModel, now: u64) -> Seq<(CborModel, CborModel)> {
    seq![
        (CborModel::Integer(0), tx("cbor-web-doleance"@)),
        (CborModel::Integer(1), CborModel::Integer(1)),
        (
            CborModel::Integer(2),
            cmap_of(
                seq![
                    (tx("domain"@), tx(domain_of(base))),
                    (tx("page_path"@), tx(text_or(member_str(feedback, "page_path"@), "/"@))),
                ],
            ),
        ),
        (CborModel::Integer(3), CborModel::Array(signals_of(feedback))),
        (
            CborModel::Integer(4),
            cmap_of(
                seq![
                    (tx("agent"@), tx("cbor-crawl/0.2.0"@)),
                    (tx("timestamp"@), CborModel::Tag(crate::value::EPOCH_TAG, Box::new(CborModel::Integer(now as int)))),
                ],
            ),
        ),
    ]
}

/// The Doléance document about a site, from the feedback given as JSON, sent
/// at `now`: its entries in deterministic order, under the self-described tag.
pub open spec fn doleance_model(base: Seq<char>, feedback: JsonModel, now: u64) -> CborModel {
    CborModel::Tag(crate::value::SELF_DESCRIBED_TAG, Box::new(cmap_of(doleance_entries(base, feedback, now))))
}

fn trim_prefix_all_exec(s: &Vec<char>, start: usize, prefix: &str) -> (r: usize)
    requires
        start <= s.len(),
    ensures
        start <= r <= s.len(),
        s@.skip(r as int) == trim_prefix_all(s@.skip(start as int), prefix@),
{
    let p = chars_of(prefix);
    if p.len() == 0 {
        return start;
    }
    let mut i: usize = start;
    while p.len() <= s.len() - i && crate::text::str_starts_with(
        crate::text::string_of_range(s, i, s.len()).as_str(),
        prefix,
    )
        invariant
            start <= i <= s.len(),
            p@ == prefix@,
            p.len() > 0,
            trim_prefix_all(s@.skip(start as int), prefix@) == trim_prefix_all(s@.skip(i as int), prefix@),
        decreases s.len() - i,
    {
        assert(s@.subrange(i as int, s.len() as int) =~= s@.skip(i as int));
        assert(s@.skip(i as int).skip(p.len() as int) =~= s@.skip(i + p.len()));
        i = i + p.len();
    }
    proof {
        assert(s@.subrange(i as int, s.len() as int) =~= s@.skip(i as int));
        if p.len() > s.len() - i {
            assert(!crate::text::seq_starts_with(s@.skip(i as int), prefix@));
        }
    }
    i
}

fn text_or_default(b: &JsonValue, k: &str, d: &str) -> (r: String)
    ensures
        r@ == text_or(member_str(b@, k@), d@),
{
    match get_str(b, k) {
        Some(s) => String::from_str(s),
        None => String::from_str(d),
    }
}

/// The Doléance document (`doleance_model`).
pub fn doleance_document(base_url: &str, feedback: &JsonValue, now: u64) -> (r: CborValue)
    ensures
        r@ == doleance_model(base_url@, feedback@, now),
        r.wf(),
{
    proof {
        reveal_strlit("");
        assert(""@ =~= Seq::<char>::empty());
    }
    let cs = chars_of(base_url);
    let mut end: usize = cs.len();
    assert(cs@.take(end as int) =~= cs@);
    while end > 0 && cs[end - 1] == '/'
        invariant
            end <= cs.len(),
            trim_trailing(cs@, '/') == trim_trailing(cs@.take(end as int), '/'),
        decreases end,
    {
        assert(cs@.take(end as int).drop_last() =~= cs@.take(end - 1));
        end = end - 1;
    }
    let base = crate::text::string_of_range(&cs, 0, end);
    let bs = chars_of(base.as_str());
    assert(bs@.skip(0) =~= bs@);
    let a = trim_prefix_all_exec(&bs, 0, "https://");
    let b = trim_prefix_all_exec(&bs, a, "http://");
    let domain = crate::text::string_of_range(&bs, b, bs.len());
    assert(domain@ =~= bs@.skip(b as int));
    assert(cs@.subrange(0, end as int) =~= cs@.take(end as int));
    let page_path = text_or_default(feedback, "page_path", "/");
    let mut signals: Vec<CborValue> = Vec::new();
    match json_get(feedback, "signals") {
        Some(v) => match json_as_array(v) {
            Some(items) => {
                proof {
                    lemma_json_models(items@);
                }
                let mut i: usize = 0;
                while i < items.len()
                    invariant
                        i <= items.len(),
                        signals.len() == i,
                        ""@ == Seq::<char>::empty(),
                        json_models(items@).len() == items.len(),
                        forall|j: int| 0 <= j < items.len() ==> #[trigger] json_models(items@)[j] == items@[j]@,
                        forall|j: int| 0 <= j < i ==> (#[trigger] signals@[j])@ == signal_model(items@[j]@) && signals@[j].wf(),
                    decreases items.len() - i,
                {
                    let s = &items[i];
                    let mut e: Vec<(CborValue, CborValue)> = Vec::new();
                    push_entry(&mut e, t("signal"), t(text_or_default(s, "signal", "missing_data").as_str()));
                    push_entry(&mut e, t("details"), t(text_or_default(s, "details", "").as_str()));
                    push_entry(&mut e, t("block_type"), t(text_or_default(s, "block_type", "").as_str()));
                    proof {
                        crate::value::lemma_entry_models_of(e@);
                        assert(crate::value::entry_models_of(e@) =~= seq![
                            (tx("signal"@), tx(text_or(member_str(s@, "signal"@), "missing_data"@))),
                            (tx("details"@), tx(text_or(member_str(s@, "details"@), Seq::empty()))),
                            (tx("block_type"@), tx(text_or(member_str(s@, "block_type"@), Seq::empty()))),
                        ]);
                    }
                    signals.push(cmap(e));
                    i = i + 1;
                }
                proof {
                    lemma_models_of(signals@);
                    assert(models_of(signals@) =~= json_models(items@).map_values(|s: JsonModel| signal_model(s)));
                }
            },
            None => {},
        },
        None => {},
    }
    proof {
        lemma_models_of(signals@);
        crate::value::lemma_all_wf(models_of(signals@));
        if array_member(feedback@, "signals"@) is None {
            assert(models_of(signals@) =~= Seq::<CborModel>::empty());
        }
        assert(models_of(signals@) == signals_of(feedback@));
    }
    let mut site: Vec<(CborValue, CborValue)> = Vec::new();
    push_entry(&mut site, t("domain"), t(domain.as_str()));
    push_entry(&mut site, t("page_path"), t(page_path.as_str()));
    let mut agent: Vec<(CborValue, CborValue)> = Vec::new();
    push_entry(&mut agent, t("agent"), t("cbor-crawl/0.2.0"));
    push_entry(&mut agent, t("timestamp"), crate::value::epoch(now));
    proof {
        crate::value::lemma_entry_models_of(site@);
        crate::value::lemma_entry_models_of(agent@);
        assert(crate::value::entry_models_of(site@) =~= seq![
            (tx("domain"@), tx(domain_of(base_url@))),
            (tx("page_path"@), tx(text_or(member_str(feedback@, "page_path"@), "/"@))),
        ]);
        assert(crate::value::entry_models_of(agent@) =~= seq![
            (tx("agent"@), tx("cbor-crawl/0.2.0"@)),
            (tx("timestamp"@), CborModel::Tag(crate::value::EPOCH_TAG, Box::new(CborModel::Integer(now as int)))),
        ]);
    }
    let mut doc: Vec<(CborValue, CborValue)> = Vec::new();
    push_entry(&mut doc, ii(0), t("cbor-web-doleance"));
    push_entry(&mut doc, ii(1), ii(1));
    push_entry(&mut doc, ii(2), cmap(site));
    push_entry(&mut doc, ii(3), arr(signals));
    push_entry(&mut doc, ii(4), cmap(agent));
    proof {
        crate::value::lemma_entry_models_of(doc@);
        assert(crate::value::entry_models_of(doc@) =~= doleance_entries(base_url@, feedback@, now));
    }
    crate::value::self_described(cmap(doc))
}

/// A Doléance document reads back as it is written.
pub proof fn lemma_doleance_reads_back(base: Seq<char>, feedback: JsonModel, now: u64)
    ensures
        crate::codec::reads_back(doleance_model(base, feedback, now)),
{
    let site = seq![
        (tx("domain"@), tx(domain_of(base))),
        (tx("page_path"@), tx(text_or(member_str(feedback, "page_path"@), "/"@))),
    ];
    crate::canonical::lemma_map_reads_back(site, 126);
    let stamp = CborModel::Tag(crate::value::EPOCH_TAG, Box::new(CborModel::Integer(now as int)));
    assert(crate::codec::reads_back_within(CborModel::Integer(now as int), 124));
    assert(crate::codec::reads_back_within(stamp, 125));
    let agent = seq![(tx("agent"@), tx("cbor-crawl/0.2.0"@)), (tx("timestamp"@), stamp)];
    crate::canonical::lemma_map_reads_back(agent, 126);
    let signals = signals_of(feedback);
    assert forall|i: int| 0 <= i < signals.len() implies crate::codec::reads_back_within(#[trigger] signals[i], 125) by {
        let items = array_member(feedback, "signals"@)->Some_0;
        let sm = items[i];
        crate::canonical::lemma_map_reads_back(
            seq![
                (tx("signal"@), tx(text_or(member_str(sm, "signal"@), "missing_data"@))),
                (tx("details"@), tx(text_or(member_str(sm, "details"@), Seq::empty()))),
                (tx("block_type"@), tx(text_or(member_str(sm, "block_type"@), Seq::empty()))),
            ],
            125,
        );
    }
    assert(crate::codec::reads_back_within(CborModel::Array(signals), 126));
    let entries = doleance_entries(base, feedback, now);
    assert forall|j: int| 0 <= j < entries.len() implies crate::codec::reads_back_within(#[trigger] entries[j].0, 126)
        && crate::codec::reads_back_within(entries[j].1, 126) by {
        assert(crate::codec::reads_back_within(CborModel::Integer(j), 126));
    }
    crate::canonical::lemma_map_reads_back(entries, 127);
}

/// The encoded Doléance document; the receiver reads it back, under its
/// self-described tag, as the document.
pub fn doleance_payload(base_url: &str, feedback: &JsonValue, now: u64) -> (r: Vec<u8>)
    ensures
        r@ == crate::codec::cbor_encoding(doleance_model(base_url@, feedback@, now)),
        is_self_described_prefix(r@),
        crate::codec::cbor_decoding(r@) == Some(doleance_model(base_url@, feedback@, now)),
        document_of(r@) == Some(cmap_of(doleance_entries(base_url@, feedback@, now))),
{
    let doc = doleance_document(base_url, feedback, now);
    proof {
        lemma_doleance_reads_back(base_url@, feedback@, now);
    }
    crate::codec::encode_value(&doc)
}

// ── Search ──

/// The blocks that match the (lowercased) query, in order.
pub open spec fn block_hits(blocks: Seq<JsonModel>, q: Seq<char>) -> Seq<JsonModel>
    decreases blocks.len(),
{
    if blocks.len() == 0 {
        Seq::empty()
    } else if crate::crawl::block_hit(blocks.last(), q) {
        block_hits(blocks.drop_last(), q).push(blocks.last())
    } else {
        block_hits(blocks.drop_last(), q)
    }
}

/// The previews of matches: each one's text, cut to 80 bytes.
pub open spec fn hit_previews(hits: Seq<JsonModel>) -> Seq<Seq<char>>
    decreases hits.len(),
{
    if hits.len() == 0 {
        Seq::empty()
    } else {
        match member_str(hits.last(), "text"@) {
            Some(text) => hit_previews(hits.drop_last()).push(truncated(text, 80)),
            None => hit_previews(hits.drop_last()),
        }
    }
}

/// The search of one page's content: the number of matching blocks, whether
/// the title matches too (its lowercase holds the query), and the previews
/// of the matches.
pub open spec fn page_search(content: JsonModel, q: Seq<char>) -> (nat, bool, Seq<Seq<char>>) {
    let blocks = match array_member(content, "blocks"@) {
        Some(b) => b,
        None => Seq::empty(),
    };
    let hits = block_hits(blocks, q);
    let title = text_or(member_str(content, "title"@), Seq::empty());
    let title_hit = crate::text::seq_contains(crate::text::lowercase_of(title), q);
    let previews = if title_hit && member_str(content, "title"@) is Some {
        hit_previews(hits).push(truncated(title, 80))
    } else {
        hit_previews(hits)
    };
    (hits.len(), title_hit, previews)
}

/// Searches one page's content (`page_search`) for the lowercased query.
pub fn search_page(content: &JsonValue, query_lower: &str) -> (r: (usize, bool, Vec<String>))
    ensures
        r.0 as nat == page_search(content@, query_lower@).0,
        r.1 == page_search(content@, query_lower@).1,
        r.2@.map_values(|s: String| s@) == page_search(content@, query_lower@).2,
{
    proof {
        reveal_strlit("");
        assert(""@ =~= Seq::<char>::empty());
    }
    let mut count: usize = 0;
    let mut previews: Vec<String> = Vec::new();
    let ghost blocks_m = match array_member(content@, "blocks"@) {
        Some(b) => b,
        None => Seq::<JsonModel>::empty(),
    };
    let ghost hits = block_hits(blocks_m, query_lower@);
    match json_get(content, "blocks") {
        Some(bv) => match json_as_array(bv) {
            Some(blocks) => {
                let ghost m = json_models(blocks@);
                proof {
                    lemma_json_models(blocks@);
                    assert(m.take(0) =~= Seq::<JsonModel>::empty());
                }
                let mut i: usize = 0;
                while i < blocks.len()
                    invariant
                        i <= blocks.len(),
                        m == json_models(blocks@),
                        m.len() == blocks.len(),
                        forall|j: int| 0 <= j < blocks.len() ==> #[trigger] m[j] == blocks@[j]@,
                        count as nat == block_hits(m.take(i as int), query_lower@).len(),
                        count <= i,
                        previews@.map_values(|s: String| s@) == hit_previews(block_hits(m.take(i as int), query_lower@)),
                    decreases blocks.len() - i,
                {
                    assert(m.take(i + 1).drop_last() =~= m.take(i as int));
                    if crate::crawl::block_matches_content(&blocks[i], query_lower) {
                        count = count + 1;
                        let ghost hb = block_hits(m.take(i as int), query_lower@);
                        assert(block_hits(m.take(i + 1), query_lower@) == hb.push(m[i as int]));
                        assert(hb.push(m[i as int]).drop_last() =~= hb);
                        match get_str(&blocks[i], "text") {
                            Some(text) => {
                                let ghost before = previews@;
                                previews.push(crate::crawl::truncate(text, 80));
                                assert(previews@.map_values(|s: String| s@) =~= before.map_values(|s: String| s@).push(
                                    truncated(text@, 80),
                                ));
                            },
                            None => {},
                        }
                    }
                    i = i + 1;
                }
                assert(m.take(blocks.len() as int) =~= m);
            },
            None => {
                assert(previews@.map_values(|s: String| s@) =~= Seq::<Seq<char>>::empty());
            },
        },
        None => {
            assert(previews@.map_values(|s: String| s@) =~= Seq::<Seq<char>>::empty());
        },
    }
    assert(count as nat == hits.len());
    assert(previews@.map_values(|s: String| s@) == hit_previews(hits));
    let title_v = get_str(content, "title");
    let title = match title_v {
        Some(s) => String::from_str(s),
        None => String::new(),
    };
    let lower = crate::text::to_lowercase(title.as_str());
    let title_hit = crate::text::str_contains(lower.as_str(), query_lower);
    if title_hit {
        match title_v {
            Some(s) => {
                let ghost before = previews@;
                previews.push(crate::crawl::truncate(s, 80));
                assert(previews@.map_values(|s: String| s@) =~= before.map_values(|s: String| s@).push(
                    truncated(title@, 80),
                ));
            },
            None => {},
        }
    }
    (count, title_hit, previews)
}

// ── Collected pages in path order ──

/// The pages are in strictly increasing order of their paths.
pub open spec fn paths_ascending(s: Seq<(String, JsonValue)>) -> bool {
    forall|i: int, j: int| 0 <= i < j < s.len() ==> crate::generate::text_lt(#[trigger] s[i].0@, #[trigger] s[j].0@)
}

proof fn lemma_insert_unique(s: Seq<(String, JsonValue)>, k: int, x: (String, JsonValue))
    requires
        crate::crawl::names_unique(s),
        0 <= k <= s.len(),
        forall|j: int| 0 <= j < s.len() ==> (#[trigger] s[j]).0@ != x.0@,
    ensures
        crate::crawl::names_unique(s.insert(k, x)),
{
    let t = s.insert(k, x);
    assert forall|a: int, b: int| 0 <= a < b < t.len() implies (#[trigger] t[a]).0@ != (#[trigger] t[b]).0@ by {
        if a < k && b < k {
            assert(t[a] == s[a] && t[b] == s[b]);
        } else if a < k && b == k {
            assert(t[a] == s[a]);
        } else if a < k {
            assert(t[a] == s[a] && t[b] == s[b - 1]);
        } else if a == k {
            assert(t[b] == s[b - 1]);
        } else {
            assert(t[a] == s[a - 1] && t[b] == s[b - 1]);
        }
    }
}

proof fn lemma_insert_object(s: Seq<(String, JsonValue)>, k: int, x: (String, JsonValue))
    requires
        0 <= k <= s.len(),
        forall|j: int| 0 <= j < s.len() ==> (#[trigger] s[j]).0@ != x.0@,
    ensures
        object_model(s.insert(k, x)) == object_model(s).insert(x.0@, json_model(x.1)),
    decreases s.len(),
{
    let t = s.insert(k, x);
    if k == s.len() {
        assert(t =~= s.push(x));
        crate::json::lemma_object_push(s, x.0, x.1);
    } else {
        assert(t.drop_last() =~= s.drop_last().insert(k, x));
        assert(t.last() == s.last());
        lemma_insert_object(s.drop_last(), k, x);
        assert(s.last().0@ != x.0@);
        assert(object_model(t) =~= object_model(s).insert(x.0@, json_model(x.1)));
    }
}

/// Searches every collected page for a query, ignoring case: the query is
/// lowercased once (`lowercase_of`), then each page is searched
/// (`page_search`), in the order of the pages.
pub fn search_site(pages: &Vec<(String, JsonValue)>, query: &str) -> (r: Vec<(usize, bool, Vec<String>)>)
    ensures
        r.len() == pages.len(),
        forall|i: int| 0 <= i < pages.len() ==> {
            let s = page_search((#[trigger] pages@[i]).1@, crate::text::lowercase_of(query@));
            &&& r@[i].0 as nat == s.0
            &&& r@[i].1 == s.1
            &&& r@[i].2@.map_values(|t: String| t@) == s.2
        },
{
    let q = crate::text::to_lowercase(query);
    let mut r: Vec<(usize, bool, Vec<String>)> = Vec::new();
    let mut i: usize = 0;
    while i < pages.len()
        invariant
            i <= pages.len(),
            r.len() == i,
            q@ == crate::text::lowercase_of(query@),
            forall|k: int| 0 <= k < i ==> {
                let s = page_search((#[trigger] pages@[k]).1@, q@);
                &&& r@[k].0 as nat == s.0
                &&& r@[k].1 == s.1
                &&& r@[k].2@.map_values(|t: String| t@) == s.2
            },
        decreases pages.len() - i,
    {
        let found = search_page(&pages[i].1, q.as_str());
        r.push(found);
        i = i + 1;
    }
    r
}

/// The collected pages in increasing order of their paths (as a `BTreeMap`
/// from paths walks them).
pub fn in_path_order(pages: Vec<(String, JsonValue)>) -> (r: Vec<(String, JsonValue)>)
    requires
        crate::crawl::names_unique(pages@),
    ensures
        crate::crawl::names_unique(r@),
        paths_ascending(r@),
        object_model(r@) == object_model(pages@),
{
    let mut input = pages;
    let mut out: Vec<(String, JsonValue)> = Vec::new();
    let ghost all = input@;
    assert(out@ + input@ =~= all);
    while input.len() > 0
        invariant
            paths_ascending(out@),
            crate::crawl::names_unique(out@ + input@),
            object_model(out@ + input@) == object_model(all),
        decreases input.len(),
    {
        let ghost before_out = out@;
        let ghost before_in = input@;
        let x = input.remove(0);
        let ghost rest = input@;
        proof {
            assert(before_in =~= seq![x] + rest);
            assert(before_out + before_in =~= (before_out + rest).insert(before_out.len() as int, x));
            let whole = before_out + before_in;
            assert forall|j: int| 0 <= j < (before_out + rest).len() implies (#[trigger] (before_out + rest)[j]).0@ != x.0@ by {
                if j < before_out.len() {
                    assert((before_out + rest)[j] == whole[j]);
                    assert(whole[before_out.len() as int] == x);
                } else {
                    assert((before_out + rest)[j] == whole[j + 1]);
                    assert(whole[before_out.len() as int] == x);
                }
            }
            assert forall|a: int, b: int| 0 <= a < b < (before_out + rest).len() implies (#[trigger] (before_out + rest)[a]).0@ != (#[trigger] (before_out + rest)[b]).0@ by {
                let ia = if a < before_out.len() { a } else { a + 1 };
                let ib = if b < before_out.len() { b } else { b + 1 };
                assert((before_out + rest)[a] == whole[ia]);
                assert((before_out + rest)[b] == whole[ib]);
            }
            lemma_insert_object(before_out + rest, before_out.len() as int, x);
        }
        let mut k: usize = 0;
        while k < out.len() && !crate::generate::path_less(&x.0, &out[k].0)
            invariant
                k <= out.len(),
                out@ == before_out,
                forall|i: int| 0 <= i < k ==> !crate::generate::text_lt(x.0@, (#[trigger] out@[i]).0@),
            decreases out.len() - k,
        {
            k = k + 1;
        }
        proof {
            assert forall|j: int| 0 <= j < before_out.len() implies (#[trigger] before_out[j]).0@ != x.0@ by {
                assert((before_out + rest)[j] == before_out[j]);
            }
            assert forall|j: int| k <= j < before_out.len() implies crate::generate::text_lt(x.0@, (#[trigger] before_out[j]).0@) by {
                assert(crate::generate::text_lt(x.0@, before_out[k as int].0@));
                if j > k {
                    crate::generate::lemma_text_lt_transitive(x.0@, before_out[k as int].0@, before_out[j].0@);
                }
            }
            assert forall|i: int| 0 <= i < k implies crate::generate::text_lt((#[trigger] before_out[i]).0@, x.0@) by {
                crate::generate::lemma_text_lt_total(before_out[i].0@, x.0@);
            }
        }
        out.insert(k, x);
        proof {
            assert(out@ =~= before_out.insert(k as int, x));
            assert forall|i: int, j: int| 0 <= i < j < out@.len() implies crate::generate::text_lt(
                #[trigger] out@[i].0@,
                #[trigger] out@[j].0@,
            ) by {
                if j < k {
                    assert(out@[j] == before_out[j] && out@[i] == before_out[i]);
                } else if j == k {
                    assert(out@[i] == before_out[i]);
                } else if i < k {
                    assert(out@[j] == before_out[j - 1] && out@[i] == before_out[i]);
                    crate::generate::lemma_text_lt_transitive(before_out[i].0@, x.0@, before_out[j - 1].0@);
                } else if i == k {
                    assert(out@[j] == before_out[j - 1]);
                } else {
                    assert(out@[j] == before_out[j - 1] && out@[i] == before_out[i - 1]);
                }
            }
            assert(out@ + rest =~= (before_out + rest).insert(k as int, x));
            lemma_insert_object(before_out + rest, k as int, x);
            lemma_insert_unique(before_out + rest, k as int, x);
        }
    }
    assert(out@ + input@ =~= out@);
    out
}

} // verus!
