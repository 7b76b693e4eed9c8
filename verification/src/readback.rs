//! Reading back what the library writes: the index a site's generation
//! encodes decodes, past its self-described tag, to the index itself.
use vstd::prelude::*;
use crate::value::{CborModel, models_of, lemma_models_of};
use crate::codec::reads_back_within;
use crate::canonical::lemma_map_reads_back;
use crate::site::{
    GenerateArgs, PageEntry, tx, texts_array, cmap_of, site_metadata_entries, security_entries, navigation_entries,
    page_paths, hierarchy_groups, top_level, list_items, meta_entries, page_entry_entries, page_core_entries,
    page_option_entries, alternates_model, links_entries, pair_map, cbor_of_json,
};
use crate::generate::{index_entries, index_document, page_values, total_size};

verus! {

/// Reading back within a depth reads back within any larger depth.
pub proof fn lemma_reads_back_mono(m: CborModel, d1: nat, d2: nat)
    requires
        d1 <= d2,
        reads_back_within(m, d1),
    ensures
        reads_back_within(m, d2),
    decreases m,
{
    match m {
        CborModel::Tag(_, inner) => {
            lemma_reads_back_mono(*inner, (d1 - 1) as nat, (d2 - 1) as nat);
        },
        CborModel::Array(items) => {
            assert forall|i: int| 0 <= i < items.len() implies reads_back_within(#[trigger] items[i], (d2 - 1) as nat) by {
                lemma_reads_back_mono(items[i], (d1 - 1) as nat, (d2 - 1) as nat);
            }
        },
        CborModel::Mapping(entries) => {
            assert forall|i: int| 0 <= i < entries.len() implies reads_back_within(#[trigger] entries[i].0, (d2 - 1) as nat)
                && reads_back_within(entries[i].1, (d2 - 1) as nat) by {
                lemma_reads_back_mono(entries[i].0, (d1 - 1) as nat, (d2 - 1) as nat);
                lemma_reads_back_mono(entries[i].1, (d1 - 1) as nat, (d2 - 1) as nat);
            }
        },
        _ => {},
    }
}

/// An array of texts reads back within any positive depth.
proof fn lemma_texts_array(ss: Seq<Seq<char>>, d: nat)
    requires
        d > 0,
    ensures
        reads_back_within(texts_array(ss), d),
{
    let items = ss.map_values(|s: Seq<char>| CborModel::Text(s));
    assert forall|i: int| 0 <= i < items.len() implies reads_back_within(#[trigger] items[i], (d - 1) as nat) by {
        assert(items[i] == CborModel::Text(ss[i]));
    }
}

/// A map of texts to texts reads back within any positive depth.
proof fn lemma_text_map(es: Seq<(CborModel, CborModel)>, d: nat)
    requires
        d > 0,
        forall|j: int| 0 <= j < es.len() ==> (#[trigger] es[j]).0 is Text && es[j].1 is Text,
    ensures
        reads_back_within(cmap_of(es), d),
{
    lemma_map_reads_back(es, d);
}

/// The site metadata reads back within 2 levels or more.
proof fn lemma_site_metadata(a: GenerateArgs, d: nat)
    requires
        d >= 3,
    ensures
        reads_back_within(cmap_of(site_metadata_entries(a)), d),
{
    let name = if a.name@.len() == 0 { a.domain@ } else { a.name@ };
    let langs = if a.languages@.len() == 0 { seq![a.default_lang@] } else { list_items(a.languages@) };
    lemma_texts_array(langs, (d - 1) as nat);
    let c1: Seq<(CborModel, CborModel)> = if a.contact_email@.len() == 0 { Seq::empty() } else { seq![(tx("email"@), tx(a.contact_email@))] };
    let c2 = if a.contact_phone@.len() == 0 { c1 } else { c1.push((tx("phone"@), tx(a.contact_phone@))) };
    lemma_text_map(c2, (d - 1) as nat);
    let g1: Seq<(CborModel, CborModel)> = if a.country@.len() == 0 { Seq::empty() } else { seq![(tx("country"@), tx(a.country@))] };
    let g2 = if a.region@.len() == 0 { g1 } else { g1.push((tx("region"@), tx(a.region@))) };
    lemma_text_map(g2, (d - 1) as nat);
    let es = site_metadata_entries(a);
    assert forall|j: int| 0 <= j < es.len() implies reads_back_within(#[trigger] es[j].0, (d - 1) as nat)
        && reads_back_within(es[j].1, (d - 1) as nat) by {}
    lemma_map_reads_back(es, d);
}

/// The security section reads back within 3 levels or more.
proof fn lemma_security(a: GenerateArgs, d: nat)
    requires
        d >= 3,
    ensures
        reads_back_within(cmap_of(security_entries(a)), d),
{
    lemma_texts_array(list_items(a.auth_mechanisms@), (d - 2) as nat);
    let erc = seq![(tx("chain"@), tx("ethereum"@)), (tx("contract_address"@), tx(a.erc20_contract@))];
    lemma_text_map(erc, (d - 2) as nat);
    let auth1 = seq![(tx("mechanisms"@), texts_array(list_items(a.auth_mechanisms@)))];
    let auth2 = if a.erc20_contract@.len() == 0 { auth1 } else { auth1.push((tx("erc20"@), cmap_of(erc))) };
    assert forall|j: int| 0 <= j < auth2.len() implies reads_back_within(#[trigger] auth2[j].0, (d - 2) as nat)
        && reads_back_within(auth2[j].1, (d - 2) as nat) by {}
    lemma_map_reads_back(auth2, (d - 1) as nat);
    let limits = seq![
        (tx("T1"@), CborModel::Integer(a.rate_limit_t1 as int)),
        (tx("T2"@), CborModel::Integer(a.rate_limit_t2 as int)),
    ];
    assert forall|j: int| 0 <= j < limits.len() implies reads_back_within(#[trigger] limits[j].0, (d - 2) as nat)
        && reads_back_within(limits[j].1, (d - 2) as nat) by {}
    lemma_map_reads_back(limits, (d - 1) as nat);
    let es = security_entries(a);
    assert forall|j: int| 0 <= j < es.len() implies reads_back_within(#[trigger] es[j].0, (d - 1) as nat)
        && reads_back_within(es[j].1, (d - 1) as nat) by {}
    lemma_map_reads_back(es, d);
}

/// The navigation reads back within 3 levels or more.
proof fn lemma_navigation(a: GenerateArgs, paths: Seq<Seq<char>>, d: nat)
    requires
        d >= 3,
    ensures
        reads_back_within(CborModel::Mapping(crate::canonical::canonical_entries(navigation_entries(a, paths))), d),
{
    lemma_texts_array(list_items(a.nav_main@), (d - 1) as nat);
    lemma_texts_array(top_level(paths), (d - 1) as nat);
    lemma_texts_array(list_items(a.nav_footer@), (d - 1) as nat);
    let h = hierarchy_groups(paths).map_values(|g: (Seq<char>, Seq<Seq<char>>)| (tx(g.0), texts_array(g.1)));
    assert forall|j: int| 0 <= j < h.len() implies reads_back_within(#[trigger] h[j].0, (d - 2) as nat)
        && reads_back_within(h[j].1, (d - 2) as nat) by {
        lemma_texts_array(hierarchy_groups(paths)[j].1, (d - 2) as nat);
    }
    lemma_map_reads_back(h, (d - 1) as nat);
    let es = navigation_entries(a, paths);
    assert forall|j: int| 0 <= j < es.len() implies reads_back_within(#[trigger] es[j].0, (d - 1) as nat)
        && reads_back_within(es[j].1, (d - 1) as nat) by {}
    lemma_map_reads_back(es, d);
}

/// A block with its hints reads back within the depth the block does.
proof fn lemma_enriched(b: CborModel, d: nat)
    requires
        reads_back_within(b, d),
    ensures
        reads_back_within(crate::describe::enriched(b), d),
{
    match b {
        CborModel::Mapping(entries) => {
            let (ty, value, level) = crate::describe::block_fields(entries);
            let desc = crate::describe::describe_text(entries, ty, value, level);
            let with_d = if desc.len() > 0 { entries.push((CborModel::Text("_describe"@), CborModel::Text(desc))) } else { entries };
            let all = with_d.push(
                (CborModel::Text("_l"@), CborModel::Integer(crate::describe::depth_level(ty, level) as int)),
            );
            assert forall|j: int| 0 <= j < all.len() implies reads_back_within(#[trigger] all[j].0, (d - 1) as nat)
                && reads_back_within(all[j].1, (d - 1) as nat) by {
                if j < entries.len() {
                    assert(all[j] == entries[j]);
                    assert(reads_back_within(entries[j].0, (d - 1) as nat));
                }
            }
            lemma_map_reads_back(all, d);
        },
        _ => {},
    }
}

/// A page reads back when its content blocks and its structured data do,
/// within 100 levels.
pub open spec fn page_reads_back(p: PageEntry) -> bool {
    &&& forall|i: int| 0 <= i < p.blocks.len() ==> reads_back_within((#[trigger] p.blocks@[i])@, 100)
    &&& p.structured_data matches Some(sd) ==> reads_back_within(cbor_of_json(sd), 100)
}

/// Every page reads back.
pub open spec fn pages_read_back(pages: Seq<PageEntry>) -> bool {
    forall|i: int| 0 <= i < pages.len() ==> page_reads_back(#[trigger] pages[i])
}

/// A page entry of the index reads back within 120 levels.
proof fn lemma_page_entry(p: PageEntry, now: u64)
    requires
        page_reads_back(p),
    ensures
        reads_back_within(cmap_of(page_entry_entries(p, now)), 120),
{
    let blocks = models_of(p.blocks@);
    lemma_models_of(p.blocks@);
    let content = blocks.map_values(|b: CborModel| crate::describe::enriched(b));
    assert forall|i: int| 0 <= i < content.len() implies reads_back_within(#[trigger] content[i], 118) by {
        assert(blocks[i] == p.blocks@[i]@);
        lemma_reads_back_mono(blocks[i], 100, 118);
        lemma_enriched(blocks[i], 118);
    }
    let alternates = p.alternates@.map_values(|a: (String, String)| (tx(a.0@), tx(a.1@)));
    lemma_text_map(alternates, 119);
    let internal = p.internal_links@.map_values(|l: (String, String)| pair_map("path"@, l.0@, "text"@, l.1@));
    let external = p.external_links@.map_values(|l: (String, String)| pair_map("text"@, l.1@, "url"@, l.0@));
    assert forall|i: int| 0 <= i < internal.len() implies reads_back_within(#[trigger] internal[i], 117) by {
        lemma_text_map(seq![(tx("path"@), tx(p.internal_links@[i].0@)), (tx("text"@), tx(p.internal_links@[i].1@))], 117);
    }
    assert forall|i: int| 0 <= i < external.len() implies reads_back_within(#[trigger] external[i], 117) by {
        lemma_text_map(seq![(tx("text"@), tx(p.external_links@[i].1@)), (tx("url"@), tx(p.external_links@[i].0@))], 117);
    }
    let l = links_entries(p);
    assert forall|j: int| 0 <= j < l.len() implies reads_back_within(#[trigger] l[j].0, 118) && reads_back_within(l[j].1, 118) by {}
    lemma_map_reads_back(l, 119);
    match p.structured_data {
        Some(sd) => {
            lemma_reads_back_mono(cbor_of_json(sd), 100, 119);
        },
        None => {},
    }
    assert(reads_back_within(CborModel::Array(content), 119));
    let updated = CborModel::Tag(crate::value::EPOCH_TAG, Box::new(CborModel::Integer(now as int)));
    assert(reads_back_within(CborModel::Integer(now as int), 118));
    assert(reads_back_within(updated, 119));
    let core = page_core_entries(p, now);
    assert(core[1].1 == CborModel::Array(content));
    assert forall|j: int| 0 <= j < core.len() implies reads_back_within(#[trigger] core[j].0, 119)
        && reads_back_within(core[j].1, 119) by {}
    let opts = page_option_entries(p, core);
    assert forall|j: int| 0 <= j < opts.len() implies reads_back_within(#[trigger] opts[j].0, 119)
        && reads_back_within(opts[j].1, 119) by {
        if j < core.len() {
            let e2 = if p.description@.len() == 0 { core } else { core.push((tx("description"@), tx(p.description@))) };
            assert(opts[j] == core[j]) by {
                assert(e2[j] == core[j]);
            }
        }
    }
    let es = page_entry_entries(p, now);
    assert forall|j: int| 0 <= j < es.len() implies reads_back_within(#[trigger] es[j].0, 119)
        && reads_back_within(es[j].1, 119) by {
        if j < opts.len() {
            let e5 = if p.alternates@.len() == 0 { opts } else { opts.push((tx("alternates"@), alternates_model(p))) };
            let e6 = match p.structured_data {
                Some(sd) => e5.push((tx("structured_data"@), cbor_of_json(sd))),
                None => e5,
            };
            assert(e5[j] == opts[j]);
            assert(e6[j] == opts[j]);
            assert(es[j] == opts[j]);
        }
    }
    lemma_map_reads_back(es, 120);
}

/// The index of pages that read back reads back.
pub proof fn lemma_index_reads_back(a: GenerateArgs, pages: Seq<PageEntry>, now: u64)
    requires
        pages_read_back(pages),
        total_size(pages) <= u64::MAX,
    ensures
        crate::codec::reads_back(index_document(a, pages, now)),
{
    lemma_site_metadata(a, 126);
    lemma_security(a, 126);
    lemma_navigation(a, page_paths(pages), 126);
    let values = page_values(pages, now);
    assert forall|i: int| 0 <= i < values.len() implies reads_back_within(#[trigger] values[i], 125) by {
        lemma_page_entry(pages[i], now);
        lemma_reads_back_mono(values[i], 120, 125);
    }
    assert(reads_back_within(CborModel::Integer(now as int), 124));
    let meta = meta_entries(pages.len() as u64, total_size(pages) as u64, now);
    assert forall|j: int| 0 <= j < meta.len() implies reads_back_within(#[trigger] meta[j].0, 125)
        && reads_back_within(meta[j].1, 125) by {}
    lemma_map_reads_back(meta, 126);
    let es = index_entries(a, pages, now);
    assert forall|j: int| 0 <= j < es.len() implies reads_back_within(#[trigger] es[j].0, 126)
        && reads_back_within(es[j].1, 126) by {}
    lemma_map_reads_back(es, 127);
}

} // verus!
