//! Properties of the library that span calls or inputs: deterministic map
//! order, the rate limit of a client within one second, page file names,
//! what a crawl fetches, feedback reaching the server, and the domains the
//! usage counters remember.
use vstd::prelude::*;
use crate::value::CborModel;
use crate::canonical::{
    canonical_entries, entries_in_canonical_order, arranges, canonical_arrangement, is_permutation, hits,
    entry_key, lemma_arrangement_exists, lemma_sorted_is_canonical, lemma_canonical_entries,
};
use crate::server::{check_step, WINDOW_NANOS};
use crate::crawl::{escape_underscores, trim_leading, replace_char, page_filename, fetch_targets_of, requires_auth};

verus! {

/// Building a map puts its entries in deterministic order (RFC 8949 §4.2.1):
/// the result is a rearrangement of the entries in which no key encodes
/// before the key of an entry ahead of it.
pub proof fn law_map_order_is_deterministic(entries: Seq<(CborModel, CborModel)>)
    ensures
        arranges(entries, canonical_entries(entries)),
        entries_in_canonical_order(canonical_entries(entries)),
        canonical_entries(entries).len() == entries.len(),
{
    lemma_arrangement_exists(entries);
}

/// Ordering the entries of a map a second time changes nothing.
pub proof fn law_map_order_is_idempotent(entries: Seq<(CborModel, CborModel)>)
    ensures
        canonical_entries(canonical_entries(entries)) == canonical_entries(entries),
{
    lemma_arrangement_exists(entries);
    lemma_sorted_is_canonical(canonical_entries(entries));
}

/// The keys of the entries encode pairwise differently.
pub open spec fn keys_distinct(entries: Seq<(CborModel, CborModel)>) -> bool {
    forall|i: int, j: int| 0 <= i < j < entries.len() ==> entry_key(#[trigger] entries[i]) != entry_key(#[trigger] entries[j])
}

/// The same entries given in any order make the same map, where no two keys
/// encode alike: `reordered` holds at each place `k` the entry that `entries`
/// holds at `p[k]`.
pub proof fn law_map_order_ignores_insertion_order(
    entries: Seq<(CborModel, CborModel)>,
    reordered: Seq<(CborModel, CborModel)>,
    p: Seq<int>,
)
    requires
        is_permutation(p, entries.len() as int),
        reordered.len() == entries.len(),
        forall|k: int| 0 <= k < reordered.len() ==> #[trigger] reordered[k] == entries[p[k]],
        keys_distinct(entries),
    ensures
        canonical_entries(reordered) == canonical_entries(entries),
{
    lemma_arrangement_exists(entries);
    let out = canonical_entries(entries);
    let perm1 = choose|perm: Seq<int>| canonical_arrangement(entries, out, perm);
    let n = entries.len() as int;
    // The place in `reordered` of each place of `entries`.
    let inv = Seq::new(n as nat, |i: int| choose|q: int| 0 <= q < n && p[q] == i);
    assert forall|i: int| 0 <= i < n implies 0 <= #[trigger] inv[i] < n && p[inv[i]] == i by {
        assert(hits(p, i));
    }
    let perm2 = Seq::new(n as nat, |k: int| inv[perm1[k]]);
    assert forall|k: int| 0 <= k < n implies 0 <= #[trigger] perm2[k] < n && reordered[perm2[k]] == entries[perm1[k]] by {
        assert(0 <= perm1[k] < n);
    }
    assert forall|k1: int, k2: int| 0 <= k1 < k2 < n implies perm2[k1] != perm2[k2] by {
        assert(perm1[k1] != perm1[k2]);
        assert(p[perm2[k1]] == perm1[k1]);
        assert(p[perm2[k2]] == perm1[k2]);
    }
    assert forall|q: int| 0 <= q < n implies #[trigger] hits(perm2, q) by {
        let i = p[q];
        assert(hits(perm1, i));
        let k = choose|k: int| 0 <= k < perm1.len() && perm1[k] == i;
        assert(p[inv[i]] == i);
        if inv[i] != q {
            assert(p[inv[i]] == p[q]);
            if inv[i] < q {
                assert(p[inv[i]] != p[q]);
            } else {
                assert(p[q] != p[inv[i]]);
            }
        }
        assert(perm2[k] == q);
    }
    assert(is_permutation(perm2, n));
    assert forall|k: int| 0 <= k < out.len() implies #[trigger] out[k] == reordered[perm2[k]] by {
        assert(out[k] == entries[perm1[k]]);
    }
    assert forall|k1: int, k2: int|
        0 <= k1 < k2 < out.len() && entry_key(out[k1]) == entry_key(out[k2]) implies perm2[k1] < perm2[k2] by {
        assert(out[k1] == entries[perm1[k1]]);
        assert(out[k2] == entries[perm1[k2]]);
        assert(perm1[k1] != perm1[k2]);
        if perm1[k1] < perm1[k2] {
            assert(entry_key(entries[perm1[k1]]) != entry_key(entries[perm1[k2]]));
        } else {
            assert(entry_key(entries[perm1[k2]]) != entry_key(entries[perm1[k1]]));
        }
    }
    assert(canonical_arrangement(reordered, out, perm2));
    lemma_canonical_entries(reordered, out, perm2);
}

// ── Rate limit ──

/// The bucket and the number of passes after a client's requests at the
/// given times, from the given bucket.
pub open spec fn run_checks(max: u32, bucket: Option<(u64, u32)>, times: Seq<u64>) -> (Option<(u64, u32)>, nat)
    decreases times.len(),
{
    if times.len() == 0 {
        (bucket, 0)
    } else {
        let (b, n) = run_checks(max, bucket, times.drop_last());
        let (b2, pass) = check_step(max, b, times.last());
        (Some(b2), n + if pass { 1nat } else { 0nat })
    }
}

/// The smaller of two numbers.
pub open spec fn min_nat(a: nat, b: nat) -> nat {
    if a <= b { a } else { b }
}

proof fn lemma_window_prefix(max: u32, times: Seq<u64>, k: int)
    requires
        1 <= k <= times.len(),
        forall|i: int| 0 <= i < times.len() ==> times[0] <= #[trigger] times[i] && times[i] - times[0] < WINDOW_NANOS,
    ensures
        run_checks(max, None, times.take(k)) == (Some((times[0], min_nat(k as nat, max as nat) as u32)), min_nat(
            k as nat,
            max as nat,
        )),
    decreases k,
{
    let t0 = times[0];
    if k == 1 {
        assert(times.take(1).drop_last() =~= Seq::<u64>::empty());
        assert(run_checks(max, None, times.take(1).drop_last()) == (None::<(u64, u32)>, 0nat));
        assert(times.take(1).last() == t0);
        assert(crate::server::elapsed(t0, t0) == 0);
        let (b2, pass) = check_step(max, None, t0);
        if 0 < max {
            assert(b2 == (t0, 1u32) && pass);
        } else {
            assert(b2 == (t0, 0u32) && !pass);
        }
    } else {
        lemma_window_prefix(max, times, k - 1);
        assert(times.take(k).drop_last() =~= times.take(k - 1));
        assert(times.take(k).last() == times[k - 1]);
        let c = min_nat((k - 1) as nat, max as nat);
        let now = times[k - 1];
        assert(crate::server::elapsed(now, t0) == now - t0);
        let (b2, pass) = check_step(max, Some((t0, c as u32)), now);
        if c < max {
            assert(b2 == (t0, (c + 1) as u32) && pass);
        } else {
            assert(b2 == (t0, c as u32) && !pass);
        }
    }
}

/// Within one second of a client's first request, at most `max` of its
/// requests pass: of `n` requests all within the window, `min(n, max)` do.
pub proof fn law_rate_limit_within_window(max: u32, times: Seq<u64>)
    requires
        times.len() > 0,
        forall|i: int| 0 <= i < times.len() ==> times[0] <= #[trigger] times[i] && times[i] - times[0] < WINDOW_NANOS,
    ensures
        run_checks(max, None, times).1 == min_nat(times.len(), max as nat),
{
    lemma_window_prefix(max, times, times.len() as int);
    assert(times.take(times.len() as int) =~= times);
}

// ── Page file names ──

/// A page path as sites publish them: "/" itself, or "/" followed by a path
/// that does not start with another "/"; no "%" in it.
pub open spec fn clean_path(p: Seq<char>) -> bool {
    &&& p.len() > 0
    &&& p[0] == '/'
    &&& (p.len() > 1 ==> p[1] != '/')
    &&& forall|i: int| 0 <= i < p.len() ==> p[i] != '%'
}

proof fn lemma_escape_add(a: Seq<char>, b: Seq<char>)
    ensures
        escape_underscores(a + b) == escape_underscores(a) + escape_underscores(b),
    decreases b.len(),
{
    if b.len() == 0 {
        assert(a + b =~= a);
        assert(escape_underscores(b) =~= Seq::<char>::empty());
        assert(escape_underscores(a) + escape_underscores(b) =~= escape_underscores(a));
    } else {
        lemma_escape_add(a, b.drop_last());
        assert((a + b).drop_last() =~= a + b.drop_last());
        assert((a + b).last() == b.last());
        let t: Seq<char> = if b.last() == '_' { "%5F"@ } else { seq![b.last()] };
        assert(escape_underscores(a + b) =~= escape_underscores(a) + escape_underscores(b.drop_last()) + t);
    }
}

/// An escaped text holds no underscore, and each "%" in it starts "%5F".
proof fn lemma_escape_shape(x: Seq<char>)
    requires
        forall|i: int| 0 <= i < x.len() ==> x[i] != '%',
    ensures
        forall|i: int| 0 <= i < escape_underscores(x).len() ==> escape_underscores(x)[i] != '_',
        forall|i: int|
            0 <= i < escape_underscores(x).len() && #[trigger] escape_underscores(x)[i] == '%' ==> i + 2 < escape_underscores(x).len()
                && escape_underscores(x)[i + 1] == '5' && escape_underscores(x)[i + 2] == 'F',
    decreases x.len(),
{
    reveal_strlit("%5F");
    if x.len() > 0 {
        lemma_escape_shape(x.drop_last());
        let e0 = escape_underscores(x.drop_last());
        let t: Seq<char> = if x.last() == '_' { "%5F"@ } else { seq![x.last()] };
        assert(escape_underscores(x) =~= e0 + t);
        assert forall|i: int| 0 <= i < escape_underscores(x).len() implies escape_underscores(x)[i] != '_' by {
            if i < e0.len() {
                assert(escape_underscores(x)[i] == e0[i]);
            } else {
                assert(escape_underscores(x)[i] == t[i - e0.len()]);
            }
        }
        assert forall|i: int|
            0 <= i < escape_underscores(x).len() && #[trigger] escape_underscores(x)[i] == '%' implies i + 2 < escape_underscores(x).len()
                && escape_underscores(x)[i + 1] == '5' && escape_underscores(x)[i + 2] == 'F' by {
            if i < e0.len() {
                assert(escape_underscores(x)[i] == e0[i]);
                assert(escape_underscores(x)[i + 1] == e0[i + 1]);
                assert(escape_underscores(x)[i + 2] == e0[i + 2]);
            } else {
                assert(escape_underscores(x)[i] == t[i - e0.len()]);
                assert(x.last() == x[x.len() - 1]);
            }
        }
    }
}

/// Reads "%5F" back as an underscore.
pub open spec fn unescape(s: Seq<char>) -> Seq<char>
    decreases s.len(),
{
    if s.len() >= 3 && s.subrange(s.len() - 3, s.len() as int) == "%5F"@ {
        unescape(s.subrange(0, s.len() - 3)).push('_')
    } else if s.len() > 0 {
        unescape(s.drop_last()).push(s.last())
    } else {
        s
    }
}

proof fn lemma_unescape_escape(x: Seq<char>)
    requires
        forall|i: int| 0 <= i < x.len() ==> x[i] != '%',
    ensures
        unescape(escape_underscores(x)) == x,
    decreases x.len(),
{
    reveal_strlit("%5F");
    if x.len() == 0 {
        assert(escape_underscores(x) =~= Seq::<char>::empty());
    } else {
        lemma_unescape_escape(x.drop_last());
        let e0 = escape_underscores(x.drop_last());
        let e = escape_underscores(x);
        assert(x.last() == x[x.len() - 1]);
        if x.last() == '_' {
            assert(e =~= e0 + "%5F"@);
            assert(e.subrange(e.len() - 3, e.len() as int) =~= "%5F"@);
            assert(e.subrange(0, e.len() - 3) =~= e0);
            assert(x =~= x.drop_last().push('_'));
        } else {
            assert(e =~= e0.push(x.last()));
            if e.len() >= 3 && e.subrange(e.len() - 3, e.len() as int) == "%5F"@ {
                lemma_escape_shape(x.drop_last());
                assert(e.subrange(e.len() - 3, e.len() as int)[0] == e[e.len() - 3]);
                assert(("%5F"@)[0] == '%');
                assert(e[e.len() - 3] == '%');
                assert(e0[e.len() - 3] == '%');
                assert(escape_underscores(x.drop_last())[e.len() - 3] == '%');
                assert(false);
            }
            assert(e.drop_last() =~= e0);
            assert(x =~= x.drop_last().push(x.last()));
        }
    }
}

/// Different page paths that sites publish get different file names: the
/// escaping of underscores keeps "/a_b" and "/a/b" apart.
pub proof fn law_page_filenames_distinct(p: Seq<char>, q: Seq<char>)
    requires
        clean_path(p),
        clean_path(q),
        p != q,
    ensures
        page_filename(p) != page_filename(q),
{
    reveal_strlit("/");
    reveal_strlit("_index.cbor");
    reveal_strlit(".cbor");
    if page_filename(p) == page_filename(q) {
        if p == "/"@ {
            lemma_filename_not_index(q);
        } else if q == "/"@ {
            lemma_filename_not_index(p);
        } else {
            let xp = lemma_filename_core(p);
            let xq = lemma_filename_core(q);
            let fp = page_filename(p);
            assert(fp.subrange(0, fp.len() - 5) =~= replace_char(escape_underscores(xp), '/', '_'));
            assert(fp.subrange(0, fp.len() - 5) =~= replace_char(escape_underscores(xq), '/', '_'));
            lemma_escape_shape(xp);
            lemma_escape_shape(xq);
            lemma_unreplace(escape_underscores(xp));
            lemma_unreplace(escape_underscores(xq));
            lemma_unescape_escape(xp);
            lemma_unescape_escape(xq);
            assert(p =~= seq!['/'] + xp);
            assert(q =~= seq!['/'] + xq);
        }
    }
}

/// The file name of a published path other than "/": the rest after its
/// slash, escaped, slashes made underscores, then ".cbor".
proof fn lemma_filename_core(p: Seq<char>) -> (x: Seq<char>)
    requires
        clean_path(p),
        p != "/"@,
    ensures
        p == seq!['/'] + x,
        forall|i: int| 0 <= i < x.len() ==> x[i] != '%',
        page_filename(p) == replace_char(escape_underscores(x), '/', '_') + ".cbor"@,
        x.len() > 0 ==> x[0] != '/',
{
    reveal_strlit("/");
    let x = p.drop_first();
    assert(p =~= seq!['/'] + x);
    lemma_escape_add(seq!['/'], x);
    assert(seq!['/'].drop_last() =~= Seq::<char>::empty());
    assert(escape_underscores(Seq::<char>::empty()) == Seq::<char>::empty());
    assert(escape_underscores(seq!['/']) =~= seq!['/']);
    let e = escape_underscores(p);
    assert(e =~= seq!['/'] + escape_underscores(x));
    assert(e.drop_first() =~= escape_underscores(x));
    if x.len() > 0 {
        lemma_escape_first(x);
    } else {
        assert(escape_underscores(x) =~= Seq::<char>::empty());
    }
    assert(trim_leading(e.drop_first(), '/') == e.drop_first());
    assert(trim_leading(e, '/') == escape_underscores(x));
    x
}

proof fn lemma_escape_first(x: Seq<char>)
    requires
        x.len() > 0,
        x[0] != '/',
    ensures
        escape_underscores(x).len() > 0,
        escape_underscores(x)[0] != '/',
{
    reveal_strlit("%5F");
    lemma_escape_add(seq![x[0]], x.drop_first());
    assert(seq![x[0]] + x.drop_first() =~= x);
    assert(seq![x[0]].drop_last() =~= Seq::<char>::empty());
    assert(escape_underscores(Seq::<char>::empty()) == Seq::<char>::empty());
    let t: Seq<char> = if x[0] == '_' { "%5F"@ } else { seq![x[0]] };
    assert(escape_underscores(seq![x[0]]) =~= t);
}

/// Turning underscores back into slashes undoes turning slashes into
/// underscores in a text without underscores.
proof fn lemma_unreplace(s: Seq<char>)
    requires
        forall|i: int| 0 <= i < s.len() ==> s[i] != '_',
    ensures
        replace_char(replace_char(s, '/', '_'), '_', '/') == s,
{
    assert(replace_char(replace_char(s, '/', '_'), '_', '/') =~= s);
}

/// No published path other than "/" gets the file name of "/".
proof fn lemma_filename_not_index(q: Seq<char>)
    requires
        clean_path(q),
        q != "/"@,
    ensures
        page_filename(q) != "_index.cbor"@,
{
    reveal_strlit("_index.cbor");
    reveal_strlit(".cbor");
    let x = lemma_filename_core(q);
    lemma_escape_shape(x);
    if page_filename(q) == "_index.cbor"@ {
        let r = replace_char(escape_underscores(x), '/', '_');
        assert(page_filename(q)[0] == '_');
        if r.len() == 0 {
            assert(page_filename(q) =~= ".cbor"@);
        } else {
            assert(r[0] == '_');
            assert(escape_underscores(x)[0] == '/' || escape_underscores(x)[0] == '_');
            if x.len() > 0 {
                lemma_escape_first(x);
            }
        }
    }
}


// ── Access tiers ──

/// A crawl fetches no page whose tier needs credentials ("T0" or "token"),
/// and fetches every other listed page, under its file name.
pub proof fn law_protected_pages_are_not_fetched(entries: Seq<(Seq<char>, Seq<char>, Option<Seq<char>>)>)
    ensures
        forall|k: int| 0 <= k < fetch_targets_of(entries).len() ==> exists|j: int|
            0 <= j < entries.len() && (#[trigger] entries[j]).0 == (#[trigger] fetch_targets_of(entries)[k]).0
                && !requires_auth(entries[j].1) && fetch_targets_of(entries)[k].1 == page_filename(entries[j].0),
        forall|j: int| 0 <= j < entries.len() && !requires_auth(#[trigger] entries[j].1) ==> fetch_targets_of(entries).contains(
            (entries[j].0, page_filename(entries[j].0)),
        ),
    decreases entries.len(),
{
    if entries.len() > 0 {
        let front = entries.drop_last();
        law_protected_pages_are_not_fetched(front);
        let t = fetch_targets_of(entries);
        let tf = fetch_targets_of(front);
        let n = entries.len() - 1;
        assert forall|k: int| 0 <= k < t.len() implies exists|j: int|
            0 <= j < entries.len() && (#[trigger] entries[j]).0 == (#[trigger] t[k]).0 && !requires_auth(entries[j].1)
                && t[k].1 == page_filename(entries[j].0) by {
            if k < tf.len() {
                assert(t[k] == tf[k]);
                let j = choose|j: int|
                    0 <= j < front.len() && (#[trigger] front[j]).0 == (#[trigger] tf[k]).0 && !requires_auth(front[j].1)
                        && tf[k].1 == page_filename(front[j].0);
                assert(entries[j] == front[j]);
            } else {
                assert(entries[n] == entries.last());
            }
        }
        assert forall|j: int| 0 <= j < entries.len() && !requires_auth(#[trigger] entries[j].1) implies t.contains(
            (entries[j].0, page_filename(entries[j].0)),
        ) by {
            if j < n {
                assert(entries[j] == front[j]);
                assert(front[j].1 == entries[j].1);
                let k = choose|k: int| 0 <= k < tf.len() && tf[k] == (front[j].0, page_filename(front[j].0));
                assert(t[k] == tf[k]);
            } else {
                assert(t[t.len() - 1] == (entries[j].0, page_filename(entries[j].0)));
            }
        }
    }
}

// ── Feedback ──

/// Feedback a crawler sends reaches the server as sent: a body that decodes
/// to a Doléance document (as the crawler's payload does) is recorded with
/// that document, as JSON, and no parse error.
pub proof fn law_sent_feedback_is_recorded(
    body: Seq<u8>,
    base: Seq<char>,
    feedback: crate::json::JsonModel,
    sent_at: u64,
    received_at: u64,
)
    requires
        crate::codec::cbor_decoding(body) == Some(crate::report::doleance_model(base, feedback, sent_at)),
    ensures
        ({
            let record = crate::server::doleance_record(body, received_at, crate::codec::cbor_decoding(body), ""@);
            &&& record.contains_key("doleance"@)
            &&& record["doleance"@] == crate::json::cbor_json(crate::report::doleance_model(base, feedback, sent_at))
            &&& !record.contains_key("parse_error"@)
        }),
{
    reveal_strlit("doleance");
    reveal_strlit("parse_error");
    reveal_strlit("received_at");
    reveal_strlit("size");
    reveal_strlit("hash");
    let m = crate::report::doleance_model(base, feedback, sent_at);
    let base_record = Map::<Seq<char>, crate::json::JsonModel>::empty().insert(
        "received_at"@,
        crate::json::JsonModel::Int(received_at as int),
    ).insert("size"@, crate::json::JsonModel::Int(body.len() as int)).insert(
        "hash"@,
        crate::json::JsonModel::Str(crate::digest::hex_text(crate::digest::sha256_spec(body), false)),
    );
    let record = crate::server::doleance_record(body, received_at, crate::codec::cbor_decoding(body), ""@);
    assert(record == base_record.insert("doleance"@, crate::json::cbor_json(m)));
    assert("parse_error"@.len() == 11);
    assert("doleance"@.len() == 8);
    assert("hash"@.len() == 4);
    assert("parse_error"@ != "doleance"@);
    assert("parse_error"@ != "hash"@);
    assert("parse_error"@ != "size"@);
    assert("parse_error"@[0] != "received_at"@[0]);
    assert("parse_error"@ != "received_at"@);
    assert(!base_record.contains_key("parse_error"@));
}

// ── Usage counters ──

/// No name is listed twice.
pub open spec fn no_repeats(seen: Seq<Seq<char>>) -> bool {
    forall|i: int, j: int| 0 <= i < j < seen.len() ==> #[trigger] seen[i] != #[trigger] seen[j]
}

/// A scanned domain is listed once: after a scan the domain is listed, a list
/// without repeats stays without them, and scanning the same domain again
/// leaves the list as the first scan left it.
pub proof fn law_scanned_domain_listed_once(seen: Seq<Seq<char>>, domain: Seq<char>)
    ensures
        crate::telemetry::with_domain(seen, domain).contains(domain),
        no_repeats(seen) ==> no_repeats(crate::telemetry::with_domain(seen, domain)),
        crate::telemetry::with_domain(crate::telemetry::with_domain(seen, domain), domain)
            == crate::telemetry::with_domain(seen, domain),
{
    let once = crate::telemetry::with_domain(seen, domain);
    if !seen.contains(domain) {
        assert(once[seen.len() as int] == domain);
        assert forall|i: int, j: int| 0 <= i < j < once.len() && no_repeats(seen) implies
            #[trigger] once[i] != #[trigger] once[j] by {
            if j == seen.len() {
                assert(once[i] == seen[i]);
            } else {
                assert(once[i] == seen[i] && once[j] == seen[j]);
            }
        }
    }
    assert(once.contains(domain));
}

// ── Search ──

/// The number of matches a search finds on a page: its matching blocks, and
/// one more where the title matches.
pub open spec fn page_matches(content: crate::json::JsonModel, q: Seq<char>) -> nat {
    let s = crate::report::page_search(content, q);
    s.0 + if s.1 { 1nat } else { 0nat }
}

/// The matches a search finds over all the pages.
pub open spec fn total_matches(pages: Seq<crate::json::JsonModel>, q: Seq<char>) -> nat
    decreases pages.len(),
{
    if pages.len() == 0 {
        0
    } else {
        total_matches(pages.drop_last(), q) + page_matches(pages.last(), q)
    }
}

/// A search ignores the case of its query: two queries with the same
/// lowercase form find the same matches and previews on every page, and so
/// the same total over the site.
pub proof fn law_search_ignores_query_case(pages: Seq<crate::json::JsonModel>, q1: Seq<char>, q2: Seq<char>)
    requires
        crate::text::lowercase_of(q1) == crate::text::lowercase_of(q2),
    ensures
        forall|i: int| 0 <= i < pages.len() ==> crate::report::page_search(#[trigger] pages[i], crate::text::lowercase_of(q1))
            == crate::report::page_search(pages[i], crate::text::lowercase_of(q2)),
        total_matches(pages, crate::text::lowercase_of(q1)) == total_matches(pages, crate::text::lowercase_of(q2)),
{
}

} // verus!
