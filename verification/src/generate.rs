//! Generating a site's index: a page entry from each page's content, the pages
//! in path order, the index document and its summary.
use vstd::prelude::*;
use crate::value::{CborValue, CborModel, models_of, lemma_models_of, t, u, ii, arr, self_described};
use crate::site::{
    GenerateArgs, PageEntry, url_path_of, url_path_for, access_of, access_for, tier_paths, tier_paths_of, tx,
    cmap_of, cmap, push_entry, entries_wf, page_buildable, build_page_entry, page_entry_entries,
    build_site_metadata, site_metadata_entries, build_security, security_entries, build_navigation,
    navigation_entries, page_paths, build_meta, meta_entries,
};
use crate::page::{PageContent, PageContentModel, pairs_view, values_wf};
use crate::codec::{cbor_encoding, encode_value};
use crate::digest::{sha256_spec, sha256_bytes};
use crate::json::{JsonValue, JsonModel, object_model, obj_insert, jstr};

verus! {

/// The title of a page: its own, else its path.
pub open spec fn title_or_path(title: Seq<char>, path: Seq<char>) -> Seq<char> {
    if title.len() > 0 { title } else { path }
}

/// The encoding of a page's content blocks, as one array.
pub open spec fn content_encoding(blocks: Seq<CborModel>) -> Seq<u8> {
    cbor_encoding(CborModel::Array(blocks))
}

/// The page entry of a page file read from `rel` (its path in the site's
/// folder): its address path, its title (the path where it has none), the
/// access tier of its path, the hash and size of its encoded content, and
/// the site's priority and freshness.
pub fn page_entry_from(
    args: &GenerateArgs,
    rel: &str,
    content: PageContent,
    structured_data: Option<JsonValue>,
) -> (r: PageEntry)
    requires
        values_wf(content.blocks@),
    ensures
        r.path@ == url_path_of(rel@),
        r.title@ == title_or_path(content@.title, url_path_of(rel@)),
        r.description@ == content@.description,
        r.lang@ == content@.lang,
        r.access@ == access_of(
            url_path_of(rel@),
            tier_paths_of(args.t0_pages@),
            tier_paths_of(args.t1_pages@),
            args.default_access@,
        ),
        models_of(r.blocks@) == content@.blocks,
        values_wf(r.blocks@),
        r.hash@ == sha256_spec(content_encoding(content@.blocks)),
        r.content_size == content_encoding(content@.blocks).len(),
        pairs_view(r.internal_links@) == content@.internal,
        pairs_view(r.external_links@) == content@.external,
        pairs_view(r.alternates@) == content@.alternates,
        r.structured_data == structured_data,
        r.priority == args.priority,
        r.freshness@ == args.freshness@,
{
    let url_path = url_path_for(rel);
    let t0 = tier_paths(args.t0_pages.as_str());
    let t1 = tier_paths(args.t1_pages.as_str());
    let access = access_for(url_path.as_str(), &t0, &t1, args.default_access.as_str());
    let PageContent { title, description, lang, blocks, internal_links, external_links, alternates, json_ld: _ } =
        content;
    let ghost bm = models_of(blocks@);
    proof {
        lemma_models_of(blocks@);
        crate::value::lemma_all_wf(bm);
        assert forall|i: int| 0 <= i < bm.len() implies crate::value::model_wf(#[trigger] bm[i]) by {
            assert(bm[i] == blocks@[i]@);
        }
        assert(crate::value::all_wf(bm));
    }
    let whole = arr(blocks);
    let bytes = encode_value(&whole);
    let hash = sha256_bytes(bytes.as_slice());
    let blocks = match whole {
        CborValue::Array(items) => {
            proof {
                lemma_models_of(items@);
                crate::value::lemma_all_wf(models_of(items@));
                assert(models_of(items@) == bm);
                assert forall|i: int| 0 <= i < items.len() implies (#[trigger] items@[i]).wf() by {
                    assert(models_of(items@)[i] == items@[i]@);
                }
            }
            items
        },
        _ => Vec::new(),
    };
    let title = if crate::site::is_empty(&title) { url_path.clone() } else { title };
    PageEntry {
        path: url_path,
        title,
        description,
        lang,
        access,
        blocks,
        hash,
        content_size: bytes.len(),
        internal_links,
        external_links,
        alternates,
        structured_data,
        priority: args.priority,
        freshness: args.freshness.clone(),
    }
}

// ── Path order ──

/// Lexicographic order of texts by character (as `str` orders them).
pub open spec fn text_lt(a: Seq<char>, b: Seq<char>) -> bool
    decreases a.len(),
{
    if a.len() == 0 {
        b.len() > 0
    } else if b.len() == 0 {
        false
    } else if a[0] != b[0] {
        a[0] < b[0]
    } else {
        text_lt(a.drop_first(), b.drop_first())
    }
}

pub proof fn lemma_text_lt_asymmetric(a: Seq<char>, b: Seq<char>)
    ensures
        !(text_lt(a, b) && text_lt(b, a)),
        !text_lt(a, a),
    decreases a.len(),
{
    if a.len() > 0 && b.len() > 0 && a[0] == b[0] {
        lemma_text_lt_asymmetric(a.drop_first(), b.drop_first());
    }
    if a.len() > 0 {
        lemma_text_lt_asymmetric(a.drop_first(), a.drop_first());
    }
}

pub proof fn lemma_text_lt_total(a: Seq<char>, b: Seq<char>)
    ensures
        a != b ==> text_lt(a, b) || text_lt(b, a),
    decreases a.len(),
{
    if a.len() > 0 && b.len() > 0 && a[0] == b[0] {
        lemma_text_lt_total(a.drop_first(), b.drop_first());
        if a != b {
            assert(a =~= seq![a[0]] + a.drop_first());
            assert(b =~= seq![b[0]] + b.drop_first());
        }
    } else if a.len() == 0 && b.len() == 0 {
        assert(a =~= b);
    }
}

pub proof fn lemma_text_lt_transitive(a: Seq<char>, b: Seq<char>, c: Seq<char>)
    requires
        text_lt(a, b),
        text_lt(b, c),
    ensures
        text_lt(a, c),
    decreases a.len(),
{
    if a.len() > 0 && b.len() > 0 && c.len() > 0 && a[0] == b[0] && b[0] == c[0] {
        lemma_text_lt_transitive(a.drop_first(), b.drop_first(), c.drop_first());
    }
}

/// The pages are in order of their paths.
pub open spec fn in_path_order(s: Seq<PageEntry>) -> bool {
    forall|i: int, j: int| 0 <= i < j < s.len() ==> !text_lt(#[trigger] s[j].path@, #[trigger] s[i].path@)
}

/// The pages with the given path, in their order.
pub open spec fn with_path(s: Seq<PageEntry>, p: Seq<char>) -> Seq<PageEntry>
    decreases s.len(),
{
    if s.len() == 0 {
        Seq::empty()
    } else if s.last().path@ == p {
        with_path(s.drop_last(), p).push(s.last())
    } else {
        with_path(s.drop_last(), p)
    }
}

proof fn lemma_with_path_add(a: Seq<PageEntry>, b: Seq<PageEntry>, p: Seq<char>)
    ensures
        with_path(a + b, p) == with_path(a, p) + with_path(b, p),
    decreases b.len(),
{
    if b.len() == 0 {
        assert(a + b =~= a);
        assert(with_path(a, p) + with_path(b, p) =~= with_path(a, p));
    } else {
        lemma_with_path_add(a, b.drop_last(), p);
        assert((a + b).drop_last() =~= a + b.drop_last());
        assert((a + b).last() == b.last());
        assert(with_path(a + b, p) =~= with_path(a, p) + with_path(b, p));
    }
}

proof fn lemma_with_path_none(s: Seq<PageEntry>, p: Seq<char>)
    requires
        forall|j: int| 0 <= j < s.len() ==> (#[trigger] s[j]).path@ != p,
    ensures
        with_path(s, p) == Seq::<PageEntry>::empty(),
    decreases s.len(),
{
    if s.len() > 0 {
        lemma_with_path_none(s.drop_last(), p);
    }
}

proof fn lemma_with_path_one(x: PageEntry, p: Seq<char>)
    ensures
        with_path(seq![x], p) == (if x.path@ == p { seq![x] } else { Seq::<PageEntry>::empty() }),
{
    assert(seq![x].drop_last() =~= Seq::<PageEntry>::empty());
    assert(with_path(seq![x].drop_last(), p) == Seq::<PageEntry>::empty());
    assert(Seq::<PageEntry>::empty().push(x) =~= seq![x]);
}

pub fn path_less(a: &String, b: &String) -> (r: bool)
    ensures
        r == text_lt(a@, b@),
{
    let ca = crate::text::chars_of(a.as_str());
    let cb = crate::text::chars_of(b.as_str());
    let mut i: usize = 0;
    assert(ca@.skip(0) =~= ca@);
    assert(cb@.skip(0) =~= cb@);
    while i < ca.len() && i < cb.len()
        invariant
            i <= ca.len(),
            i <= cb.len(),
            text_lt(a@, b@) == text_lt(ca@.skip(i as int), cb@.skip(i as int)),
            ca@ == a@,
            cb@ == b@,
        decreases ca.len() - i,
    {
        let ghost sa = ca@.skip(i as int);
        let ghost sb = cb@.skip(i as int);
        assert(sa[0] == ca@[i as int] && sb[0] == cb@[i as int]);
        if ca[i] != cb[i] {
            return ca[i] < cb[i];
        }
        assert(sa.drop_first() =~= ca@.skip(i + 1));
        assert(sb.drop_first() =~= cb@.skip(i + 1));
        i = i + 1;
    }
    assert(ca@.skip(i as int).len() == 0 || cb@.skip(i as int).len() == 0);
    i == ca.len() && i < cb.len()
}

/// The pages in order of their paths; pages with the same path keep their
/// order.
pub fn sort_pages(pages: Vec<PageEntry>) -> (r: Vec<PageEntry>)
    ensures
        in_path_order(r@),
        forall|p: Seq<char>| #[trigger] with_path(r@, p) == with_path(pages@, p),
{
    let mut input = pages;
    let mut out: Vec<PageEntry> = Vec::new();
    let ghost all = input@;
    proof {
        assert forall|p: Seq<char>| #[trigger] with_path(all, p) == with_path(out@, p) + with_path(input@, p) by {
            assert(with_path(out@, p) =~= Seq::<PageEntry>::empty());
            assert(with_path(out@, p) + with_path(input@, p) =~= with_path(input@, p));
        }
    }
    while input.len() > 0
        invariant
            in_path_order(out@),
            forall|p: Seq<char>| #[trigger] with_path(all, p) == with_path(out@, p) + with_path(input@, p),
        decreases input.len(),
    {
        let ghost before_in = input@;
        let x = input.remove(0);
        proof {
            assert(before_in =~= seq![x] + input@);
        }
        let mut k: usize = 0;
        while k < out.len() && !path_less(&x.path, &out[k].path)
            invariant
                k <= out.len(),
                forall|i: int| 0 <= i < k ==> !text_lt(x.path@, (#[trigger] out@[i]).path@),
            decreases out.len() - k,
        {
            k = k + 1;
        }
        let ghost before = out@;
        proof {
            assert forall|j: int| k <= j < before.len() implies text_lt(x.path@, (#[trigger] before[j]).path@) by {
                assert(text_lt(x.path@, before[k as int].path@));
                if j > k {
                    assert(!text_lt(before[j].path@, before[k as int].path@));
                    lemma_text_lt_total(before[j].path@, before[k as int].path@);
                    if before[j].path@ != before[k as int].path@ {
                        lemma_text_lt_transitive(x.path@, before[k as int].path@, before[j].path@);
                    }
                }
            }
        }
        out.insert(k, x);
        proof {
            assert(out@ =~= before.take(k as int) + seq![x] + before.skip(k as int));
            assert forall|i: int, j: int| 0 <= i < j < out@.len() implies !text_lt(
                #[trigger] out@[j].path@,
                #[trigger] out@[i].path@,
            ) by {
                if j < k {
                    assert(out@[j] == before[j]);
                    assert(out@[i] == before[i]);
                } else if j == k {
                    assert(out@[i] == before[i]);
                } else if i < k {
                    assert(out@[j] == before[j - 1]);
                    assert(out@[i] == before[i]);
                } else if i == k {
                    assert(out@[j] == before[j - 1]);
                    lemma_text_lt_asymmetric(x.path@, before[j - 1].path@);
                } else {
                    assert(out@[j] == before[j - 1]);
                    assert(out@[i] == before[i - 1]);
                }
            }
            assert forall|p: Seq<char>| #[trigger] with_path(all, p) == with_path(out@, p) + with_path(input@, p) by {
                lemma_with_path_add(seq![x], input@, p);
                lemma_with_path_one(x, p);
                lemma_with_path_add(before.take(k as int) + seq![x], before.skip(k as int), p);
                lemma_with_path_add(before.take(k as int), seq![x], p);
                lemma_with_path_add(before.take(k as int), before.skip(k as int), p);
                assert(before.take(k as int) + before.skip(k as int) =~= before);
                if x.path@ == p {
                    assert forall|j: int| 0 <= j < before.skip(k as int).len() implies (#[trigger] before.skip(
                        k as int,
                    )[j]).path@ != p by {
                        assert(before.skip(k as int)[j] == before[k + j]);
                        lemma_text_lt_asymmetric(x.path@, x.path@);
                    }
                    lemma_with_path_none(before.skip(k as int), p);
                }
                assert(with_path(all, p) =~= with_path(out@, p) + with_path(input@, p));
            }
        }
    }
    proof {
        assert forall|p: Seq<char>| #[trigger] with_path(out@, p) == with_path(all, p) by {
            assert(with_path(input@, p) =~= Seq::<PageEntry>::empty());
            assert(with_path(out@, p) + with_path(input@, p) =~= with_path(out@, p));
        }
    }
    out
}

// ── The index ──

/// The total content size of the pages.
pub open spec fn total_size(pages: Seq<PageEntry>) -> int
    decreases pages.len(),
{
    if pages.len() == 0 {
        0
    } else {
        total_size(pages.drop_last()) + pages.last().content_size
    }
}

/// The page entries of the index, in the pages' order.
pub open spec fn page_values(pages: Seq<PageEntry>, now: u64) -> Seq<CborModel> {
    pages.map_values(|p: PageEntry| cmap_of(page_entry_entries(p, now)))
}

/// The entries of the index: document type "cbor-web" (0), version 3 (1),
/// site metadata (2), security (3), navigation where it is not empty (4),
/// the page entries (5) and the metadata of the generation (6).
pub open spec fn index_entries(a: GenerateArgs, pages: Seq<PageEntry>, now: u64) -> Seq<(CborModel, CborModel)> {
    let base = seq![
        (CborModel::Integer(0), tx("cbor-web"@)),
        (CborModel::Integer(1), CborModel::Integer(3)),
        (CborModel::Integer(2), cmap_of(site_metadata_entries(a))),
        (CborModel::Integer(3), cmap_of(security_entries(a))),
    ];
    let nav = crate::canonical::canonical_entries(navigation_entries(a, page_paths(pages)));
    let with_nav = if nav.len() > 0 { base.push((CborModel::Integer(4), CborModel::Mapping(nav))) } else { base };
    with_nav.push((CborModel::Integer(5), CborModel::Array(page_values(pages, now)))).push(
        (
            CborModel::Integer(6),
            cmap_of(meta_entries(pages.len() as u64, total_size(pages) as u64, now)),
        ),
    )
}

/// The index document: the index's entries in deterministic order, under the
/// self-described tag.
pub open spec fn index_document(a: GenerateArgs, pages: Seq<PageEntry>, now: u64) -> CborModel {
    CborModel::Tag(crate::value::SELF_DESCRIBED_TAG, Box::new(cmap_of(index_entries(a, pages, now))))
}

/// All pages can be built into entries.
pub open spec fn pages_buildable(pages: Seq<PageEntry>) -> bool {
    forall|i: int| 0 <= i < pages.len() ==> page_buildable(#[trigger] pages[i])
}

fn total_content_size(pages: &Vec<PageEntry>) -> (r: usize)
    requires
        total_size(pages@) <= usize::MAX,
    ensures
        r == total_size(pages@),
{
    let mut sum: usize = 0;
    let mut i: usize = 0;
    while i < pages.len()
        invariant
            i <= pages.len(),
            sum == total_size(pages@.take(i as int)),
            total_size(pages@) <= usize::MAX,
        decreases pages.len() - i,
    {
        assert(pages@.take(i + 1).drop_last() =~= pages@.take(i as int));
        proof {
            lemma_total_size_prefix(pages@, i + 1);
        }
        sum = sum + pages[i].content_size;
        i = i + 1;
    }
    assert(pages@.take(pages.len() as int) =~= pages@);
    sum
}

proof fn lemma_total_size_prefix(pages: Seq<PageEntry>, k: int)
    requires
        0 <= k <= pages.len(),
    ensures
        total_size(pages.take(k)) <= total_size(pages),
    decreases pages.len() - k,
{
    if k < pages.len() {
        lemma_total_size_prefix(pages, k + 1);
        assert(pages.take(k + 1).drop_last() =~= pages.take(k));
    } else {
        assert(pages.take(k) =~= pages);
    }
}

/// The index document of the site's pages (given in path order), generated
/// at `now`.
pub fn build_index(args: &GenerateArgs, pages: &Vec<PageEntry>, now: u64) -> (r: CborValue)
    requires
        pages_buildable(pages@),
        total_size(pages@) <= usize::MAX,
    ensures
        r@ == index_document(*args, pages@, now),
        r.wf(),
{
    let mut entries: Vec<(CborValue, CborValue)> = Vec::new();
    push_entry(&mut entries, ii(0), t("cbor-web"));
    push_entry(&mut entries, ii(1), u(3));
    push_entry(&mut entries, ii(2), build_site_metadata(args));
    push_entry(&mut entries, ii(3), build_security(args));
    let nav = build_navigation(args, pages);
    let has_nav = match &nav {
        CborValue::Mapping(pairs) => pairs.len() > 0,
        _ => false,
    };
    proof {
        crate::value::lemma_entry_models_of(entries@);
        if nav is Mapping {
            crate::value::lemma_entry_models_of(nav->Mapping_0@);
        }
    }
    if has_nav {
        push_entry(&mut entries, ii(4), nav);
    }
    let mut values: Vec<CborValue> = Vec::new();
    let mut i: usize = 0;
    while i < pages.len()
        invariant
            i <= pages.len(),
            pages_buildable(pages@),
            values.len() == i,
            forall|j: int| 0 <= j < i ==> (#[trigger] values@[j])@ == cmap_of(page_entry_entries(pages@[j], now))
                && values@[j].wf(),
        decreases pages.len() - i,
    {
        values.push(build_page_entry(&pages[i], now));
        i = i + 1;
    }
    proof {
        lemma_models_of(values@);
        assert(models_of(values@) =~= page_values(pages@, now));
    }
    push_entry(&mut entries, ii(5), arr(values));
    let total = total_content_size(pages);
    push_entry(&mut entries, ii(6), build_meta(pages.len() as u64, total as u64, now));
    proof {
        crate::value::lemma_entry_models_of(entries@);
        assert(crate::value::entry_models_of(entries@) =~= index_entries(*args, pages@, now));
    }
    self_described(cmap(entries))
}

/// The encoded index document; a reader decodes it, past its self-described
/// tag, to the index, where the pages' blocks and structured data read back.
pub fn encode_index(args: &GenerateArgs, pages: &Vec<PageEntry>, now: u64) -> (r: Vec<u8>)
    requires
        pages_buildable(pages@),
        total_size(pages@) <= usize::MAX,
    ensures
        r@ == cbor_encoding(index_document(*args, pages@, now)),
        crate::codec::is_self_described_prefix(r@),
        crate::readback::pages_read_back(pages@) ==> crate::crawl::document_of(r@) == Some(
            cmap_of(index_entries(*args, pages@, now)),
        ),
{
    let doc = build_index(args, pages, now);
    proof {
        if crate::readback::pages_read_back(pages@) {
            crate::readback::lemma_index_reads_back(*args, pages@, now);
        }
    }
    encode_value(&doc)
}

/// The encoded index document, generated now.
pub fn generate_index(args: &GenerateArgs, pages: &Vec<PageEntry>) -> (r: Vec<u8>)
    requires
        pages_buildable(pages@),
        total_size(pages@) <= usize::MAX,
    ensures
        exists|now: u64| {
            &&& r@ == cbor_encoding(index_document(*args, pages@, now))
            &&& crate::readback::pages_read_back(pages@) ==> crate::crawl::document_of(r@) == Some(
                cmap_of(index_entries(*args, pages@, now)),
            )
        },
        crate::codec::is_self_described_prefix(r@),
{
    let now = crate::clock::unix_now_secs();
    encode_index(args, pages, now)
}

// ── The summary ──

/// The summary of a page: path, title, access, number of blocks and hash in
/// hexadecimal.
pub open spec fn page_summary(p: PageEntry) -> JsonModel {
    JsonModel::Object(
        Map::empty().insert("path"@, JsonModel::Str(p.path@)).insert("title"@, JsonModel::Str(p.title@)).insert(
            "access"@,
            JsonModel::Str(p.access@),
        ).insert("blocks"@, JsonModel::Int(p.blocks.len() as int)).insert(
            "hash"@,
            JsonModel::Str(crate::digest::hex_text(p.hash@, false)),
        ),
    )
}

/// The summary of a generation: document type, version, domain, the pages'
/// summaries, and the number of pages and of bytes of the index.
pub open spec fn summary_model(a: GenerateArgs, pages: Seq<PageEntry>, index_len: int) -> JsonModel {
    JsonModel::Object(
        Map::empty().insert("type"@, JsonModel::Str("cbor-web"@)).insert("version"@, JsonModel::Int(3)).insert(
            "domain"@,
            JsonModel::Str(a.domain@),
        ).insert("pages"@, JsonModel::Array(pages.map_values(|p: PageEntry| page_summary(p)))).insert(
            "stats"@,
            JsonModel::Object(
                Map::empty().insert("total_pages"@, JsonModel::Int(pages.len() as int)).insert(
                    "index_cbor_bytes"@,
                    JsonModel::Int(index_len),
                ),
            ),
        ),
    )
}

fn page_summary_value(p: &PageEntry) -> (r: JsonValue)
    ensures
        r@ == page_summary(*p),
{
    let mut m: Vec<(String, JsonValue)> = Vec::new();
    obj_insert(&mut m, "path", JsonValue::Str(p.path.clone()));
    obj_insert(&mut m, "title", JsonValue::Str(p.title.clone()));
    obj_insert(&mut m, "access", JsonValue::Str(p.access.clone()));
    obj_insert(&mut m, "blocks", JsonValue::Int(p.blocks.len() as i128));
    obj_insert(&mut m, "hash", JsonValue::Str(crate::digest::hex_encode(p.hash.as_slice())));
    proof {
        assert(object_model(Seq::<(String, JsonValue)>::empty()) =~= Map::<Seq<char>, JsonModel>::empty());
    }
    JsonValue::Object(m)
}

/// The summary of a generation (`summary_model`).
pub fn summary(args: &GenerateArgs, pages: &Vec<PageEntry>, index_len: usize) -> (r: JsonValue)
    ensures
        r@ == summary_model(*args, pages@, index_len as int),
{
    let mut list: Vec<JsonValue> = Vec::new();
    let mut i: usize = 0;
    while i < pages.len()
        invariant
            i <= pages.len(),
            list.len() == i,
            forall|j: int| 0 <= j < i ==> (#[trigger] list@[j])@ == page_summary(pages@[j]),
        decreases pages.len() - i,
    {
        list.push(page_summary_value(&pages[i]));
        i = i + 1;
    }
    proof {
        crate::json::lemma_json_models(list@);
        assert(crate::json::json_models(list@) =~= pages@.map_values(|p: PageEntry| page_summary(p)));
    }
    let mut stats: Vec<(String, JsonValue)> = Vec::new();
    obj_insert(&mut stats, "total_pages", JsonValue::Int(pages.len() as i128));
    obj_insert(&mut stats, "index_cbor_bytes", JsonValue::Int(index_len as i128));
    let mut m: Vec<(String, JsonValue)> = Vec::new();
    obj_insert(&mut m, "type", jstr("cbor-web"));
    obj_insert(&mut m, "version", JsonValue::Int(3));
    obj_insert(&mut m, "domain", JsonValue::Str(args.domain.clone()));
    obj_insert(&mut m, "pages", JsonValue::Array(list));
    obj_insert(&mut m, "stats", JsonValue::Object(stats));
    proof {
        assert(object_model(Seq::<(String, JsonValue)>::empty()) =~= Map::<Seq<char>, JsonModel>::empty());
    }
    JsonValue::Object(m)
}

// ── Publisher token and watching ──

/// What a publisher token allows.
#[derive(Debug, PartialEq, Eq)]
pub enum TokenCheck {
    /// No token: free mode, tier T2 only, no signature.
    Free,
    /// A publisher token.
    Publisher,
    /// A token that is not one.
    Invalid,
}

/// Checks a publisher token: none is the free mode, a token starting with
/// `cbw_` is a publisher's, any other is refused.
pub fn verify_token(token: &str) -> (r: TokenCheck)
    ensures
        token@.len() == 0 ==> r is Free,
        token@.len() > 0 && crate::text::seq_starts_with(token@, "cbw_"@) ==> r is Publisher,
        token@.len() > 0 && !crate::text::seq_starts_with(token@, "cbw_"@) ==> r is Invalid,
{
    if token.is_empty() {
        TokenCheck::Free
    } else if crate::text::str_starts_with(token, "cbw_") {
        TokenCheck::Publisher
    } else {
        TokenCheck::Invalid
    }
}

/// The eight little-endian bytes of a number.
pub open spec fn le_bytes(n: u64) -> Seq<u8> {
    Seq::new(8, |i: int| ((n >> ((8 * i) as u64)) & 0xffu64) as u8)
}

/// What the digest of a page file covers: its path's text, then, where its
/// metadata was read, its length and, where known, its modification time in
/// seconds.
pub open spec fn file_digest_input(f: (Seq<char>, Option<(u64, Option<u64>)>)) -> Seq<u8> {
    vstd::utf8::encode_utf8(f.0) + match f.1 {
        Some((len, modified)) => le_bytes(len) + match modified {
            Some(secs) => le_bytes(secs),
            None => Seq::empty(),
        },
        None => Seq::empty(),
    }
}

/// What the digest of a site covers: each of its page files in turn.
pub open spec fn site_digest_input(files: Seq<(Seq<char>, Option<(u64, Option<u64>)>)>) -> Seq<u8>
    decreases files.len(),
{
    if files.len() == 0 {
        Seq::empty()
    } else {
        site_digest_input(files.drop_last()) + file_digest_input(files.last())
    }
}

fn push_le_bytes(out: &mut Vec<u8>, n: u64)
    ensures
        final(out)@ == old(out)@ + le_bytes(n),
{
    let ghost start = out@;
    let mut i: u64 = 0;
    while i < 8
        invariant
            i <= 8,
            out@ == start + le_bytes(n).take(i as int),
        decreases 8 - i,
    {
        out.push(((n >> (8 * i)) & 0xff) as u8);
        i = i + 1;
        assert(out@ =~= start + le_bytes(n).take(i as int));
    }
    assert(le_bytes(n).take(8) =~= le_bytes(n));
}

/// The digest the watcher keeps of a site: the SHA-256 of its page files'
/// paths, lengths and modification times, the files given in path order.
pub fn site_digest(files: &Vec<(String, Option<(u64, Option<u64>)>)>) -> (r: Vec<u8>)
    ensures
        r@ == sha256_spec(site_digest_input(files@.map_values(|f: (String, Option<(u64, Option<u64>)>)| (f.0@, f.1)))),
{
    let ghost fs = files@.map_values(|f: (String, Option<(u64, Option<u64>)>)| (f.0@, f.1));
    let mut bytes: Vec<u8> = Vec::new();
    let mut i: usize = 0;
    while i < files.len()
        invariant
            i <= files.len(),
            fs == files@.map_values(|f: (String, Option<(u64, Option<u64>)>)| (f.0@, f.1)),
            bytes@ == site_digest_input(fs.take(i as int)),
        decreases files.len() - i,
    {
        assert(fs.take(i + 1).drop_last() =~= fs.take(i as int));
        let ghost before = bytes@;
        let path_bytes = files[i].0.as_str().as_bytes();
        let mut k: usize = 0;
        while k < path_bytes.len()
            invariant
                k <= path_bytes.len(),
                bytes@ == before + path_bytes@.take(k as int),
            decreases path_bytes.len() - k,
        {
            bytes.push(path_bytes[k]);
            k = k + 1;
            assert(bytes@ =~= before + path_bytes@.take(k as int));
        }
        assert(path_bytes@.take(path_bytes.len() as int) =~= path_bytes@);
        let ghost after_path = bytes@;
        match files[i].1 {
            Some((len, modified)) => {
                push_le_bytes(&mut bytes, len);
                match modified {
                    Some(secs) => {
                        push_le_bytes(&mut bytes, secs);
                    },
                    None => {},
                }
            },
            None => {},
        }
        assert(bytes@ =~= before + file_digest_input(fs[i as int]));
        i = i + 1;
    }
    assert(fs.take(files.len() as int) =~= fs);
    sha256_bytes(bytes.as_slice())
}

/// The site needs rebuilding when its digest differs from the last one.
pub fn site_changed(last: &Vec<u8>, current: &Vec<u8>) -> (r: bool)
    ensures
        r == (last@ != current@),
{
    if last.len() != current.len() {
        return true;
    }
    let mut i: usize = 0;
    while i < last.len()
        invariant
            i <= last.len(),
            last.len() == current.len(),
            forall|j: int| 0 <= j < i ==> last@[j] == current@[j],
        decreases last.len() - i,
    {
        if last[i] != current[i] {
            return true;
        }
        i = i + 1;
    }
    assert(last@ =~= current@);
    false
}

} // verus!
