//! Building a site's CBOR-Web index from its pages: site metadata, security,
//! navigation, page entries and the index document.
use vstd::prelude::*;
use crate::value::{CborValue, CborModel, entry_models_of, lemma_entry_models_of, models_of, lemma_models_of, t, u, ii, arr, epoch, self_described, model_wf};
use crate::canonical::{canonical_map, canonical_entries};
use crate::text::{str_eq, split_trimmed, pieces, trim_ws, chars_of, seq_starts_with, str_starts_with};
use crate::json::JsonValue;

verus! {

/// What the generator is told about a site.
#[derive(Debug, Clone)]
pub struct GenerateArgs {
    pub input: String,
    pub output: String,
    pub domain: String,
    pub name: String,
    pub description: String,
    pub default_lang: String,
    pub languages: String,
    pub contact_email: String,
    pub contact_phone: String,
    pub country: String,
    pub region: String,
    pub default_access: String,
    pub t1_pages: String,
    pub t0_pages: String,
    pub auth_mechanisms: String,
    pub erc20_contract: String,
    pub rate_limit_t1: u64,
    pub rate_limit_t2: u64,
    /// The default crawl priority, as the bit pattern of a binary64 float.
    pub priority: u64,
    pub freshness: String,
    pub nav_main: String,
    pub nav_footer: String,
}

/// What the watcher is told about a site.
#[derive(Debug, Clone)]
pub struct WatchArgs {
    pub site: String,
    pub output: String,
    pub domain: String,
    pub token: String,
    pub interval: u64,
    pub name: String,
    pub default_lang: String,
    pub languages: String,
    pub contact_email: String,
    pub contact_phone: String,
    pub country: String,
    pub region: String,
    pub description: String,
    pub default_access: String,
    pub t1_pages: String,
    /// The default crawl priority, as the bit pattern of a binary64 float.
    pub priority: u64,
    pub freshness: String,
}

impl WatchArgs {
    /// The generation the watcher runs: its own settings, no T0 pages, no
    /// authentication, rate limits 50 (T1) and 10 (T2), no fixed navigation.
    pub fn to_generate_args(&self) -> (r: GenerateArgs)
        ensures
            r.input@ == self.site@ && r.output@ == self.output@ && r.domain@ == self.domain@,
            r.name@ == self.name@ && r.description@ == self.description@,
            r.default_lang@ == self.default_lang@ && r.languages@ == self.languages@,
            r.contact_email@ == self.contact_email@ && r.contact_phone@ == self.contact_phone@,
            r.country@ == self.country@ && r.region@ == self.region@,
            r.default_access@ == self.default_access@ && r.t1_pages@ == self.t1_pages@,
            r.t0_pages@.len() == 0 && r.auth_mechanisms@.len() == 0 && r.erc20_contract@.len() == 0,
            r.rate_limit_t1 == 50 && r.rate_limit_t2 == 10,
            r.priority == self.priority && r.freshness@ == self.freshness@,
            r.nav_main@.len() == 0 && r.nav_footer@.len() == 0,
    {
        GenerateArgs {
            input: self.site.clone(),
            output: self.output.clone(),
            domain: self.domain.clone(),
            name: self.name.clone(),
            description: self.description.clone(),
            default_lang: self.default_lang.clone(),
            languages: self.languages.clone(),
            contact_email: self.contact_email.clone(),
            contact_phone: self.contact_phone.clone(),
            country: self.country.clone(),
            region: self.region.clone(),
            default_access: self.default_access.clone(),
            t1_pages: self.t1_pages.clone(),
            t0_pages: String::new(),
            auth_mechanisms: String::new(),
            erc20_contract: String::new(),
            rate_limit_t1: 50,
            rate_limit_t2: 10,
            priority: self.priority,
            freshness: self.freshness.clone(),
            nav_main: String::new(),
            nav_footer: String::new(),
        }
    }
}

/// A text value.
pub open spec fn tx(s: Seq<char>) -> CborModel {
    CborModel::Text(s)
}

/// An array of texts.
pub open spec fn texts_array(ss: Seq<Seq<char>>) -> CborModel {
    CborModel::Array(ss.map_values(|s: Seq<char>| CborModel::Text(s)))
}

/// A map of the given entries, in deterministic order.
pub open spec fn cmap_of(entries: Seq<(CborModel, CborModel)>) -> CborModel {
    CborModel::Mapping(canonical_entries(entries))
}

/// The comma-separated items of a setting, each without white space around it.
pub open spec fn list_items(s: Seq<char>) -> Seq<Seq<char>> {
    pieces(s, ',').map_values(|p: Seq<char>| trim_ws(p))
}

/// The entries of the site metadata: domain, name (the domain where none is
/// given), description where given, languages (the default language where
/// none are given), default language, contact and geography where given.
pub open spec fn site_metadata_entries(a: GenerateArgs) -> Seq<(CborModel, CborModel)> {
    let name = if a.name@.len() == 0 { a.domain@ } else { a.name@ };
    let e1 = seq![(tx("domain"@), tx(a.domain@)), (tx("name"@), tx(name))];
    let e2 = if a.description@.len() == 0 { e1 } else { e1.push((tx("description"@), tx(a.description@))) };
    let langs = if a.languages@.len() == 0 { seq![a.default_lang@] } else { list_items(a.languages@) };
    let e3 = e2.push((tx("languages"@), texts_array(langs))).push((tx("default_language"@), tx(a.default_lang@)));
    let c1: Seq<(CborModel, CborModel)> = if a.contact_email@.len() == 0 { Seq::empty() } else { seq![(tx("email"@), tx(a.contact_email@))] };
    let c2 = if a.contact_phone@.len() == 0 { c1 } else { c1.push((tx("phone"@), tx(a.contact_phone@))) };
    let e4 = if c2.len() == 0 { e3 } else { e3.push((tx("contact"@), cmap_of(c2))) };
    let g1: Seq<(CborModel, CborModel)> = if a.country@.len() == 0 { Seq::empty() } else { seq![(tx("country"@), tx(a.country@))] };
    let g2 = if a.region@.len() == 0 { g1 } else { g1.push((tx("region"@), tx(a.region@))) };
    if g2.len() == 0 { e4 } else { e4.push((tx("geo"@), cmap_of(g2))) }
}

/// An array of the texts.
pub fn text_array(items: &Vec<String>) -> (r: CborValue)
    ensures
        r@ == texts_array(items@.map_values(|s: String| s@)),
        r.wf(),
{
    let mut out: Vec<CborValue> = Vec::new();
    let mut i: usize = 0;
    while i < items.len()
        invariant
            i <= items.len(),
            out.len() == i,
            forall|j: int| 0 <= j < i ==> (#[trigger] out@[j])@ == CborModel::Text(items@[j]@) && out@[j].wf(),
        decreases items.len() - i,
    {
        out.push(t(items[i].as_str()));
        i = i + 1;
    }
    proof {
        lemma_models_of(out@);
        assert(models_of(out@) =~= items@.map_values(|s: String| s@).map_values(|s: Seq<char>| CborModel::Text(s)));
    }
    arr(out)
}

/// Pushes an entry onto a list under construction.
pub fn push_entry(entries: &mut Vec<(CborValue, CborValue)>, k: CborValue, v: CborValue)
    ensures
        entry_models_of(final(entries)@) == entry_models_of(old(entries)@).push((k@, v@)),
        final(entries)@ == old(entries)@.push((k, v)),
{
    let ghost before = entries@;
    entries.push((k, v));
    assert(entries@.drop_last() =~= before);
}

/// All keys and values of the entries are well-formed.
pub open spec fn entries_wf(s: Seq<(CborValue, CborValue)>) -> bool {
    forall|i: int| 0 <= i < s.len() ==> (#[trigger] s[i]).0.wf() && s[i].1.wf()
}

/// A map of the entries in deterministic order, well-formed where they are.
pub fn cmap(entries: Vec<(CborValue, CborValue)>) -> (r: CborValue)
    requires
        entries_wf(entries@),
    ensures
        r@ == cmap_of(entry_models_of(entries@)),
        r.wf(),
{
    canonical_map(entries)
}

pub fn is_empty(s: &String) -> (r: bool)
    ensures
        r == (s@.len() == 0),
{
    s.as_str().is_empty()
}

/// The site metadata section (key 2) of the index.
pub fn build_site_metadata(args: &GenerateArgs) -> (r: CborValue)
    ensures
        r@ == cmap_of(site_metadata_entries(*args)),
        r.wf(),
{
    let mut entries: Vec<(CborValue, CborValue)> = Vec::new();
    push_entry(&mut entries, t("domain"), t(args.domain.as_str()));
    let name = if is_empty(&args.name) { args.domain.as_str() } else { args.name.as_str() };
    push_entry(&mut entries, t("name"), t(name));
    if !is_empty(&args.description) {
        push_entry(&mut entries, t("description"), t(args.description.as_str()));
    }
    let langs = if is_empty(&args.languages) {
        let mut v: Vec<String> = Vec::new();
        v.push(args.default_lang.clone());
        assert(v@.map_values(|s: String| s@) =~= seq![args.default_lang@]);
        v
    } else {
        split_trimmed(args.languages.as_str(), ',')
    };
    push_entry(&mut entries, t("languages"), text_array(&langs));
    push_entry(&mut entries, t("default_language"), t(args.default_lang.as_str()));
    let mut contact: Vec<(CborValue, CborValue)> = Vec::new();
    if !is_empty(&args.contact_email) {
        push_entry(&mut contact, t("email"), t(args.contact_email.as_str()));
    }
    if !is_empty(&args.contact_phone) {
        push_entry(&mut contact, t("phone"), t(args.contact_phone.as_str()));
    }
    if contact.len() > 0 {
        proof {
            lemma_entry_models_of(contact@);
        }
        push_entry(&mut entries, t("contact"), cmap(contact));
    }
    let mut geo: Vec<(CborValue, CborValue)> = Vec::new();
    if !is_empty(&args.country) {
        push_entry(&mut geo, t("country"), t(args.country.as_str()));
    }
    if !is_empty(&args.region) {
        push_entry(&mut geo, t("region"), t(args.region.as_str()));
    }
    if geo.len() > 0 {
        proof {
            lemma_entry_models_of(geo@);
        }
        push_entry(&mut entries, t("geo"), cmap(geo));
    }
    proof {
        lemma_entry_models_of(entries@);
        assert(entry_models_of(entries@) =~= site_metadata_entries(*args));
    }
    cmap(entries)
}

} // verus!

verus! {

/// The entries of the security section: default access, authentication where
/// mechanisms are given (with the ERC-20 contract where one is given), and the
/// rate limits of tiers T1 and T2.
pub open spec fn security_entries(a: GenerateArgs) -> Seq<(CborModel, CborModel)> {
    let e1 = seq![(tx("default_access"@), tx(a.default_access@))];
    let auth1 = seq![(tx("mechanisms"@), texts_array(list_items(a.auth_mechanisms@)))];
    let auth2 = if a.erc20_contract@.len() == 0 {
        auth1
    } else {
        auth1.push(
            (
                tx("erc20"@),
                cmap_of(seq![(tx("chain"@), tx("ethereum"@)), (tx("contract_address"@), tx(a.erc20_contract@))]),
            ),
        )
    };
    let e2 = if a.auth_mechanisms@.len() == 0 { e1 } else { e1.push((tx("auth"@), cmap_of(auth2))) };
    e2.push(
        (
            tx("rate_limit"@),
            cmap_of(
                seq![
                    (tx("T1"@), CborModel::Integer(a.rate_limit_t1 as int)),
                    (tx("T2"@), CborModel::Integer(a.rate_limit_t2 as int)),
                ],
            ),
        ),
    )
}

/// The security section (key 3) of the index.
pub fn build_security(args: &GenerateArgs) -> (r: CborValue)
    ensures
        r@ == cmap_of(security_entries(*args)),
        r.wf(),
{
    let mut entries: Vec<(CborValue, CborValue)> = Vec::new();
    push_entry(&mut entries, t("default_access"), t(args.default_access.as_str()));
    if !is_empty(&args.auth_mechanisms) {
        let mechs = split_trimmed(args.auth_mechanisms.as_str(), ',');
        let mut auth: Vec<(CborValue, CborValue)> = Vec::new();
        let mech_arr = text_array(&mechs);
        assert(mechs@.map_values(|p: String| p@) == list_items(args.auth_mechanisms@));
        assert(mech_arr@ == texts_array(list_items(args.auth_mechanisms@)));
        push_entry(&mut auth, t("mechanisms"), mech_arr);
        proof {
            lemma_entry_models_of(auth@);
            assert(entry_models_of(auth@) =~= seq![(tx("mechanisms"@), texts_array(list_items(args.auth_mechanisms@)))]);
        }
        if !is_empty(&args.erc20_contract) {
            let mut erc: Vec<(CborValue, CborValue)> = Vec::new();
            push_entry(&mut erc, t("chain"), t("ethereum"));
            push_entry(&mut erc, t("contract_address"), t(args.erc20_contract.as_str()));
            proof {
                lemma_entry_models_of(erc@);
                assert(entry_models_of(erc@) =~= seq![(tx("chain"@), tx("ethereum"@)), (tx("contract_address"@), tx(args.erc20_contract@))]);
            }
            push_entry(&mut auth, t("erc20"), cmap(erc));
        }
        proof {
            lemma_entry_models_of(auth@);
            let auth1 = seq![(tx("mechanisms"@), texts_array(list_items(args.auth_mechanisms@)))];
            assert(entry_models_of(auth@) =~= if args.erc20_contract@.len() == 0 {
                auth1
            } else {
                auth1.push(
                    (
                        tx("erc20"@),
                        cmap_of(seq![(tx("chain"@), tx("ethereum"@)), (tx("contract_address"@), tx(args.erc20_contract@))]),
                    ),
                )
            });
        }
        push_entry(&mut entries, t("auth"), cmap(auth));
    }
    let mut limits: Vec<(CborValue, CborValue)> = Vec::new();
    push_entry(&mut limits, t("T1"), u(args.rate_limit_t1));
    push_entry(&mut limits, t("T2"), u(args.rate_limit_t2));
    proof {
        lemma_entry_models_of(limits@);
        assert(entry_models_of(limits@) =~= seq![
            (tx("T1"@), CborModel::Integer(args.rate_limit_t1 as int)),
            (tx("T2"@), CborModel::Integer(args.rate_limit_t2 as int)),
        ]);
    }
    push_entry(&mut entries, t("rate_limit"), cmap(limits));
    proof {
        lemma_entry_models_of(entries@);
        assert(entry_models_of(entries@) =~= security_entries(*args));
    }
    cmap(entries)
}

/// The name of the generator, as the index records it.
pub const GENERATOR: &'static str = "text2cbor/1.0.0";

/// The meta section of the index: when it was generated (an epoch date), by
/// what, how many pages and how many content bytes.
pub open spec fn meta_entries(page_count: u64, total_size: u64, now: u64) -> Seq<(CborModel, CborModel)> {
    seq![
        (tx("generated_at"@), CborModel::Tag(crate::value::EPOCH_TAG, Box::new(CborModel::Integer(now as int)))),
        (tx("generator"@), tx(GENERATOR@)),
        (tx("total_pages"@), CborModel::Integer(page_count as int)),
        (tx("total_size"@), CborModel::Integer(total_size as int)),
    ]
}

/// The meta section (key 6) of the index, generated at Unix time `now`.
pub fn build_meta(page_count: u64, total_size: u64, now: u64) -> (r: CborValue)
    ensures
        r@ == cmap_of(meta_entries(page_count, total_size, now)),
        r.wf(),
{
    let mut entries: Vec<(CborValue, CborValue)> = Vec::new();
    push_entry(&mut entries, t("generated_at"), epoch(now));
    push_entry(&mut entries, t("generator"), t(GENERATOR));
    push_entry(&mut entries, t("total_pages"), u(page_count));
    push_entry(&mut entries, t("total_size"), u(total_size));
    proof {
        lemma_entry_models_of(entries@);
        assert(entry_models_of(entries@) =~= meta_entries(page_count, total_size, now));
    }
    cmap(entries)
}

} // verus!

verus! {

// ── JSON-LD ──

/// The CBOR form of JSON structured data: scalars as themselves, arrays item
/// by item, objects as maps in deterministic order without their "@context".
pub open spec fn cbor_of_json(v: JsonValue) -> CborModel
    decreases v,
{
    match v {
        JsonValue::Null => CborModel::Null,
        JsonValue::Bool(b) => CborModel::Bool(b),
        JsonValue::Int(n) => CborModel::Integer(n as int),
        JsonValue::Float(f) => CborModel::Float(f),
        JsonValue::Str(s) => CborModel::Text(s@),
        JsonValue::Array(items) => CborModel::Array(cbor_of_json_seq(items@)),
        JsonValue::Object(members) => cmap_of(cbor_of_members(members@)),
    }
}

pub open spec fn cbor_of_json_seq(s: Seq<JsonValue>) -> Seq<CborModel>
    decreases s,
{
    if s.len() == 0 {
        Seq::empty()
    } else {
        cbor_of_json_seq(s.drop_last()).push(cbor_of_json(s.last()))
    }
}

pub open spec fn cbor_of_members(s: Seq<(String, JsonValue)>) -> Seq<(CborModel, CborModel)>
    decreases s,
{
    if s.len() == 0 {
        Seq::empty()
    } else {
        let rest = cbor_of_members(s.drop_last());
        if s.last().0@ == "@context"@ {
            rest
        } else {
            rest.push((CborModel::Text(s.last().0@), cbor_of_json(s.last().1)))
        }
    }
}

/// Every integer of the JSON value is one CBOR holds natively.
pub open spec fn json_ints_fit(v: JsonValue) -> bool
    decreases v,
{
    match v {
        JsonValue::Int(n) => crate::value::cbor_int_range(n as int),
        JsonValue::Array(items) => json_seq_fits(items@),
        JsonValue::Object(members) => members_fit(members@),
        _ => true,
    }
}

pub open spec fn json_seq_fits(s: Seq<JsonValue>) -> bool
    decreases s,
{
    if s.len() == 0 {
        true
    } else {
        json_seq_fits(s.drop_last()) && json_ints_fit(s.last())
    }
}

pub open spec fn members_fit(s: Seq<(String, JsonValue)>) -> bool
    decreases s,
{
    if s.len() == 0 {
        true
    } else {
        members_fit(s.drop_last()) && json_ints_fit(s.last().1)
    }
}

proof fn lemma_json_seq_fits(s: Seq<JsonValue>, i: int)
    requires
        json_seq_fits(s),
        0 <= i < s.len(),
    ensures
        json_ints_fit(s[i]),
    decreases s.len(),
{
    if i < s.len() - 1 {
        lemma_json_seq_fits(s.drop_last(), i);
    }
}

proof fn lemma_members_fit(s: Seq<(String, JsonValue)>, i: int)
    requires
        members_fit(s),
        0 <= i < s.len(),
    ensures
        json_ints_fit(s[i].1),
    decreases s.len(),
{
    if i < s.len() - 1 {
        lemma_members_fit(s.drop_last(), i);
    }
}

/// Converts JSON structured data to CBOR (`cbor_of_json`).
#[verifier::loop_isolation(false)]
pub fn json_to_cbor(json: &JsonValue) -> (r: CborValue)
    requires
        json_ints_fit(*json),
    ensures
        r@ == cbor_of_json(*json),
        r.wf(),
    decreases json,
{
    match json {
        JsonValue::Null => CborValue::Null,
        JsonValue::Bool(b) => CborValue::Bool(*b),
        JsonValue::Int(n) => CborValue::Integer(*n),
        JsonValue::Float(f) => CborValue::Float(*f),
        JsonValue::Str(s) => t(s.as_str()),
        JsonValue::Array(items) => {
            let mut out: Vec<CborValue> = Vec::new();
            let mut i: usize = 0;
            while i < items.len()
                invariant
                    i <= items.len(),
                    out.len() == i,
                    models_of(out@) == cbor_of_json_seq(items@.take(i as int)),
                    forall|j: int| 0 <= j < i ==> (#[trigger] out@[j]).wf(),
                decreases items.len() - i,
            {
                proof {
                    assert(decreases_to!(*json => (*json)->Array_0));
                    assert(decreases_to!(*items => items@));
                    assert(decreases_to!(items@ => items@[i as int]));
                    lemma_json_seq_fits(items@, i as int);
                    assert(items@.take(i + 1).drop_last() =~= items@.take(i as int));
                }
                let c = json_to_cbor(&items[i]);
                let ghost before = out@;
                out.push(c);
                assert(out@.drop_last() =~= before);
                i = i + 1;
            }
            assert(items@.take(items.len() as int) =~= items@);
            proof {
                lemma_models_of(out@);
            }
            arr(out)
        },
        JsonValue::Object(members) => {
            let mut entries: Vec<(CborValue, CborValue)> = Vec::new();
            let mut i: usize = 0;
            while i < members.len()
                invariant
                    i <= members.len(),
                    entry_models_of(entries@) == cbor_of_members(members@.take(i as int)),
                    entries_wf(entries@),
                decreases members.len() - i,
            {
                proof {
                    assert(decreases_to!(*json => (*json)->Object_0));
                    assert(decreases_to!(*members => members@));
                    assert(decreases_to!(members@ => members@[i as int]));
                    assert(decreases_to!(members@[i as int] => members@[i as int].1));
                    lemma_members_fit(members@, i as int);
                    assert(members@.take(i + 1).drop_last() =~= members@.take(i as int));
                }
                if !str_eq(members[i].0.as_str(), "@context") {
                    let k = t(members[i].0.as_str());
                    let v = json_to_cbor(&members[i].1);
                    push_entry(&mut entries, k, v);
                }
                i = i + 1;
            }
            assert(members@.take(members.len() as int) =~= members@);
            cmap(entries)
        },
    }
}

} // verus!

verus! {

// ── Pages ──

/// A page of the site, as read from its HTML.
#[derive(Debug)]
pub struct PageEntry {
    pub path: String,
    pub title: String,
    pub description: String,
    pub lang: String,
    pub access: String,
    pub blocks: Vec<CborValue>,
    /// SHA-256 of the encoded content blocks.
    pub hash: Vec<u8>,
    /// Size in bytes of the encoded content blocks.
    pub content_size: usize,
    /// Links within the site: path and link text.
    pub internal_links: Vec<(String, String)>,
    /// Links elsewhere: URL and link text.
    pub external_links: Vec<(String, String)>,
    /// Versions in other languages: language and address; each language once.
    pub alternates: Vec<(String, String)>,
    pub structured_data: Option<JsonValue>,
    /// The crawl priority, as the bit pattern of a binary64 float.
    pub priority: u64,
    pub freshness: String,
}

/// The bit pattern of the binary64 number 0.5, the default priority.
pub const DEFAULT_PRIORITY_BITS: u64 = 0x3FE0_0000_0000_0000;

/// A pair of texts under the given keys, in deterministic order.
pub open spec fn pair_map(k1: Seq<char>, v1: Seq<char>, k2: Seq<char>, v2: Seq<char>) -> CborModel {
    cmap_of(seq![(tx(k1), tx(v1)), (tx(k2), tx(v2))])
}

/// The first entries of a page entry in the index: access, content blocks
/// with their hints, hash, language, path, title and update time.
pub open spec fn page_core_entries(p: PageEntry, now: u64) -> Seq<(CborModel, CborModel)> {
    seq![
        (tx("access"@), tx(p.access@)),
        (tx("content"@), CborModel::Array(models_of(p.blocks@).map_values(|b: CborModel| crate::describe::enriched(b)))),
        (tx("hash"@), CborModel::Bytes(p.hash@)),
        (tx("lang"@), tx(p.lang@)),
        (tx("path"@), tx(p.path@)),
        (tx("title"@), tx(p.title@)),
        (tx("updated"@), CborModel::Tag(crate::value::EPOCH_TAG, Box::new(CborModel::Integer(now as int)))),
    ]
}

/// Then the description, a priority other than 0.5 and a freshness other than
/// "monthly", where present.
pub open spec fn page_option_entries(p: PageEntry, e1: Seq<(CborModel, CborModel)>) -> Seq<(CborModel, CborModel)> {
    let e2 = if p.description@.len() == 0 { e1 } else { e1.push((tx("description"@), tx(p.description@))) };
    let e3 = if p.priority == DEFAULT_PRIORITY_BITS { e2 } else { e2.push((tx("priority"@), CborModel::Float(p.priority))) };
    if p.freshness@ == "monthly"@ { e3 } else { e3.push((tx("freshness"@), tx(p.freshness@))) }
}

/// The alternates map: language to address.
pub open spec fn alternates_model(p: PageEntry) -> CborModel {
    cmap_of(p.alternates@.map_values(|a: (String, String)| (tx(a.0@), tx(a.1@))))
}

/// The links map: internal links (path, text) and external links (text, URL),
/// each where there are some.
pub open spec fn links_entries(p: PageEntry) -> Seq<(CborModel, CborModel)> {
    let internal = p.internal_links@.map_values(|l: (String, String)| pair_map("path"@, l.0@, "text"@, l.1@));
    let external = p.external_links@.map_values(|l: (String, String)| pair_map("text"@, l.1@, "url"@, l.0@));
    let l1: Seq<(CborModel, CborModel)> = if internal.len() == 0 { Seq::empty() } else { seq![(tx("internal"@), CborModel::Array(internal))] };
    if external.len() == 0 { l1 } else { l1.push((tx("external"@), CborModel::Array(external))) }
}

/// The entries of a page entry in the index: the core entries, the options,
/// then alternates, structured data and links, where present.
pub open spec fn page_entry_entries(p: PageEntry, now: u64) -> Seq<(CborModel, CborModel)> {
    let e4 = page_option_entries(p, page_core_entries(p, now));
    let e5 = if p.alternates@.len() == 0 { e4 } else { e4.push((tx("alternates"@), alternates_model(p))) };
    let e6 = match p.structured_data {
        Some(sd) => e5.push((tx("structured_data"@), cbor_of_json(sd))),
        None => e5,
    };
    let l = links_entries(p);
    if l.len() == 0 { e6 } else { e6.push((tx("links"@), cmap_of(l))) }
}

/// What a page entry can be built from: well-formed blocks that can be
/// described, structured data whose integers CBOR holds.
pub open spec fn page_buildable(p: PageEntry) -> bool {
    &&& forall|i: int| 0 <= i < p.blocks.len() ==> (#[trigger] p.blocks@[i]).wf() && crate::describe::describable(p.blocks@[i]@)
    &&& p.structured_data matches Some(sd) ==> json_ints_fit(sd)
}

fn pair_value(k1: &str, v1: &str, k2: &str, v2: &str) -> (r: CborValue)
    ensures
        r@ == pair_map(k1@, v1@, k2@, v2@),
        r.wf(),
{
    let mut e: Vec<(CborValue, CborValue)> = Vec::new();
    push_entry(&mut e, t(k1), t(v1));
    push_entry(&mut e, t(k2), t(v2));
    proof {
        lemma_entry_models_of(e@);
        assert(entry_models_of(e@) =~= seq![(tx(k1@), tx(v1@)), (tx(k2@), tx(v2@))]);
    }
    cmap(e)
}

fn links_array(links: &Vec<(String, String)>, internal: bool) -> (r: CborValue)
    ensures
        r@ == CborModel::Array(
            if internal {
                links@.map_values(|l: (String, String)| pair_map("path"@, l.0@, "text"@, l.1@))
            } else {
                links@.map_values(|l: (String, String)| pair_map("text"@, l.1@, "url"@, l.0@))
            },
        ),
        r.wf(),
{
    let mut out: Vec<CborValue> = Vec::new();
    let mut i: usize = 0;
    while i < links.len()
        invariant
            i <= links.len(),
            out.len() == i,
            forall|j: int| 0 <= j < i ==> (#[trigger] out@[j])@ == (if internal {
                pair_map("path"@, links@[j].0@, "text"@, links@[j].1@)
            } else {
                pair_map("text"@, links@[j].1@, "url"@, links@[j].0@)
            }) && out@[j].wf(),
        decreases links.len() - i,
    {
        let v = if internal {
            pair_value("path", links[i].0.as_str(), "text", links[i].1.as_str())
        } else {
            pair_value("text", links[i].1.as_str(), "url", links[i].0.as_str())
        };
        out.push(v);
        i = i + 1;
    }
    proof {
        lemma_models_of(out@);
        if internal {
            assert(models_of(out@) =~= links@.map_values(|l: (String, String)| pair_map("path"@, l.0@, "text"@, l.1@)));
        } else {
            assert(models_of(out@) =~= links@.map_values(|l: (String, String)| pair_map("text"@, l.1@, "url"@, l.0@)));
        }
    }
    arr(out)
}

fn page_core(page: &PageEntry, now: u64) -> (r: Vec<(CborValue, CborValue)>)
    requires
        page_buildable(*page),
    ensures
        entry_models_of(r@) == page_core_entries(*page, now),
        entries_wf(r@),
{
    let mut entries: Vec<(CborValue, CborValue)> = Vec::new();
    push_entry(&mut entries, t("access"), t(page.access.as_str()));
    let enriched = crate::describe::enrich_blocks(&page.blocks);
    proof {
        lemma_models_of(enriched@);
        lemma_models_of(page.blocks@);
        assert(models_of(enriched@) =~= models_of(page.blocks@).map_values(|b: CborModel| crate::describe::enriched(b)));
    }
    push_entry(&mut entries, t("content"), arr(enriched));
    push_entry(&mut entries, t("hash"), CborValue::Bytes(crate::value::clone_bytes(&page.hash)));
    push_entry(&mut entries, t("lang"), t(page.lang.as_str()));
    push_entry(&mut entries, t("path"), t(page.path.as_str()));
    push_entry(&mut entries, t("title"), t(page.title.as_str()));
    push_entry(&mut entries, t("updated"), epoch(now));
    proof {
        lemma_entry_models_of(entries@);
        assert(entry_models_of(entries@) =~= page_core_entries(*page, now));
    }
    entries
}

fn page_options(page: &PageEntry, entries: &mut Vec<(CborValue, CborValue)>)
    requires
        entries_wf(old(entries)@),
    ensures
        entry_models_of(final(entries)@) == page_option_entries(*page, entry_models_of(old(entries)@)),
        entries_wf(final(entries)@),
{
    if !is_empty(&page.description) {
        push_entry(entries, t("description"), t(page.description.as_str()));
    }
    if page.priority != DEFAULT_PRIORITY_BITS {
        push_entry(entries, t("priority"), CborValue::Float(page.priority));
    }
    if !str_eq(page.freshness.as_str(), "monthly") {
        push_entry(entries, t("freshness"), t(page.freshness.as_str()));
    }
}

fn alternates_value(page: &PageEntry) -> (r: CborValue)
    ensures
        r@ == alternates_model(*page),
        r.wf(),
{
    let mut alt: Vec<(CborValue, CborValue)> = Vec::new();
    let mut i: usize = 0;
    while i < page.alternates.len()
        invariant
            i <= page.alternates.len(),
            entry_models_of(alt@) == page.alternates@.take(i as int).map_values(|a: (String, String)| (tx(a.0@), tx(a.1@))),
            entries_wf(alt@),
        decreases page.alternates.len() - i,
    {
        push_entry(&mut alt, t(page.alternates[i].0.as_str()), t(page.alternates[i].1.as_str()));
        assert(page.alternates@.take(i + 1).map_values(|a: (String, String)| (tx(a.0@), tx(a.1@))) =~= page.alternates@.take(
            i as int,
        ).map_values(|a: (String, String)| (tx(a.0@), tx(a.1@))).push((tx(page.alternates@[i as int].0@), tx(page.alternates@[i as int].1@))));
        i = i + 1;
    }
    assert(page.alternates@.take(page.alternates.len() as int) =~= page.alternates@);
    cmap(alt)
}

fn links_value(page: &PageEntry) -> (r: Vec<(CborValue, CborValue)>)
    ensures
        entry_models_of(r@) == links_entries(*page),
        entries_wf(r@),
{
    let mut links: Vec<(CborValue, CborValue)> = Vec::new();
    if page.internal_links.len() > 0 {
        push_entry(&mut links, t("internal"), links_array(&page.internal_links, true));
    }
    if page.external_links.len() > 0 {
        push_entry(&mut links, t("external"), links_array(&page.external_links, false));
    }
    proof {
        lemma_entry_models_of(links@);
        assert(entry_models_of(links@) =~= links_entries(*page));
    }
    links
}

/// The page's entry in the index (`page_entry_entries`), updated at `now`.
pub fn build_page_entry(page: &PageEntry, now: u64) -> (r: CborValue)
    requires
        page_buildable(*page),
    ensures
        r@ == cmap_of(page_entry_entries(*page, now)),
        r.wf(),
{
    let mut entries = page_core(page, now);
    page_options(page, &mut entries);
    if page.alternates.len() > 0 {
        push_entry(&mut entries, t("alternates"), alternates_value(page));
    }
    match &page.structured_data {
        Some(sd) => {
            push_entry(&mut entries, t("structured_data"), json_to_cbor(sd));
        },
        None => {},
    }
    let links = links_value(page);
    if links.len() > 0 {
        push_entry(&mut entries, t("links"), cmap(links));
    }
    cmap(entries)
}

} // verus!

verus! {

// ── Page files ──

/// The position of the last `c` in `s`, or -1 where there is none.
pub open spec fn last_index_of(s: Seq<char>, c: char) -> int
    decreases s.len(),
{
    if s.len() == 0 {
        -1
    } else if s.last() == c {
        s.len() - 1
    } else {
        last_index_of(s.drop_last(), c)
    }
}

/// The address path of a page file, from its path relative to the site's
/// folder (components separated by `/`): the folder of an `index` file ("/"
/// for the site's own), else the path without its extension, after a `/`;
/// any `\` becomes `/`. A file name's extension is what follows its last dot,
/// where that dot is not its first character.
pub open spec fn url_path_of(rel: Seq<char>) -> Seq<char> {
    let slash = last_index_of(rel, '/');
    let name = rel.skip(slash + 1);
    let dot = last_index_of(name, '.');
    let stem = if dot > 0 { name.take(dot) } else { name };
    let raw = if stem == "index"@ {
        let parent = if slash >= 0 { rel.take(slash) } else { Seq::empty() };
        if parent.len() == 0 { "/"@ } else { "/"@ + parent }
    } else {
        "/"@ + (if dot > 0 { rel.take(slash + 1 + dot) } else { rel })
    };
    crate::crawl::replace_char(raw, '\\', '/')
}

proof fn lemma_last_index_of(s: Seq<char>, c: char)
    ensures
        -1 <= last_index_of(s, c) < s.len(),
        last_index_of(s, c) >= 0 ==> s[last_index_of(s, c)] == c,
        forall|j: int| last_index_of(s, c) < j < s.len() ==> s[j] != c,
    decreases s.len(),
{
    if s.len() > 0 {
        lemma_last_index_of(s.drop_last(), c);
        if s.last() != c {
            assert forall|j: int| last_index_of(s, c) < j < s.len() implies s[j] != c by {
                if j < s.len() - 1 {
                    assert(s[j] == s.drop_last()[j]);
                }
            }
        }
    }
}

fn last_index_exec(cs: &Vec<char>, c: char) -> (r: usize)
    ensures
        r as int == last_index_of(cs@, c) + 1,
        r <= cs.len(),
{
    proof {
        lemma_last_index_of(cs@, c);
    }
    let mut i: usize = cs.len();
    assert(cs@.take(cs.len() as int) =~= cs@);
    while i > 0 && cs[i - 1] != c
        invariant
            i <= cs.len(),
            last_index_of(cs@, c) == last_index_of(cs@.take(i as int), c),
        decreases i,
    {
        assert(cs@.take(i as int).drop_last() =~= cs@.take(i - 1));
        i = i - 1;
    }
    if i == 0 {
        assert(cs@.take(0) =~= Seq::<char>::empty());
    }
    i
}

/// The address path of a page file (`url_path_of`).
pub fn url_path_for(rel: &str) -> (r: String)
    ensures
        r@ == url_path_of(rel@),
{
    let cs = chars_of(rel);
    let slash1 = last_index_exec(&cs, '/');
    let name = crate::text::string_of_range(&cs, slash1, cs.len());
    let ns = chars_of(name.as_str());
    let dot1 = last_index_exec(&ns, '.');
    let has_ext = dot1 > 1;
    let stem = if has_ext { crate::text::string_of_range(&ns, 0, dot1 - 1) } else { name.clone() };
    proof {
        reveal_strlit("index");
        reveal_strlit("/");
        assert(name@ =~= rel@.skip(slash1 as int));
    }
    let mut raw = String::new();
    crate::text::push_char(&mut raw, '/');
    if str_eq(stem.as_str(), "index") {
        if slash1 > 1 {
            raw.append(crate::text::string_of_range(&cs, 0, slash1 - 1).as_str());
        } else {
            raw = String::new();
            crate::text::push_char(&mut raw, '/');
        }
        proof {
            let parent = if slash1 >= 1 { rel@.take(slash1 - 1) } else { Seq::<char>::empty() };
            if slash1 > 1 {
                assert(raw@ =~= "/"@ + parent);
            } else {
                assert(parent.len() == 0);
                assert(raw@ =~= "/"@);
            }
        }
    } else {
        let end = if has_ext { slash1 + dot1 - 1 } else { cs.len() };
        proof {
            lemma_last_index_of(ns@, '.');
        }
        raw.append(crate::text::string_of_range(&cs, 0, end).as_str());
        proof {
            if has_ext {
                assert(rel@.take(slash1 + dot1 - 1) =~= cs@.subrange(0, end as int));
            } else {
                assert(rel@ =~= cs@.subrange(0, end as int));
            }
        }
    }
    let rcs = chars_of(raw.as_str());
    let mut out = String::new();
    let mut i: usize = 0;
    while i < rcs.len()
        invariant
            i <= rcs.len(),
            out@ == crate::crawl::replace_char(rcs@.take(i as int), '\\', '/'),
        decreases rcs.len() - i,
    {
        crate::text::push_char(&mut out, if rcs[i] == '\\' { '/' } else { rcs[i] });
        i = i + 1;
        assert(out@ =~= crate::crawl::replace_char(rcs@.take(i as int), '\\', '/'));
    }
    assert(rcs@.take(rcs.len() as int) =~= rcs@);
    out
}

// ── Access tiers ──

/// The paths of a tier setting: its comma-separated parts that are not empty,
/// each without white space around it.
pub open spec fn tier_paths_of(s: Seq<char>) -> Seq<Seq<char>> {
    nonempty_pieces(pieces(s, ',')).map_values(|p: Seq<char>| trim_ws(p))
}

/// The pieces that are not empty.
pub open spec fn nonempty_pieces(ps: Seq<Seq<char>>) -> Seq<Seq<char>>
    decreases ps.len(),
{
    if ps.len() == 0 {
        Seq::empty()
    } else if ps.last().len() > 0 {
        nonempty_pieces(ps.drop_last()).push(ps.last())
    } else {
        nonempty_pieces(ps.drop_last())
    }
}

/// The paths of a tier setting (`tier_paths_of`).
pub fn tier_paths(s: &str) -> (r: Vec<String>)
    ensures
        r@.map_values(|p: String| p@) == tier_paths_of(s@),
{
    let ps = crate::text::split_pieces(s, ',');
    let ghost pv = ps@.map_values(|p: String| p@);
    let mut r: Vec<String> = Vec::new();
    let mut i: usize = 0;
    while i < ps.len()
        invariant
            i <= ps.len(),
            pv == ps@.map_values(|p: String| p@),
            r@.map_values(|p: String| p@) == nonempty_pieces(pv.take(i as int)).map_values(|p: Seq<char>| trim_ws(p)),
        decreases ps.len() - i,
    {
        assert(pv.take(i + 1).drop_last() =~= pv.take(i as int));
        assert(pv[i as int] == ps@[i as int]@);
        if !is_empty(&ps[i]) {
            let ghost before = r@;
            r.push(crate::text::trim(ps[i].as_str()));
            assert(nonempty_pieces(pv.take(i + 1)) == nonempty_pieces(pv.take(i as int)).push(pv[i as int]));
            assert(r@.last()@ == trim_ws(pv[i as int]));
            assert(r@.map_values(|p: String| p@) =~= before.map_values(|p: String| p@).push(trim_ws(pv[i as int])));
            assert(nonempty_pieces(pv.take(i as int)).push(pv[i as int]).map_values(|p: Seq<char>| trim_ws(p))
                =~= nonempty_pieces(pv.take(i as int)).map_values(|p: Seq<char>| trim_ws(p)).push(trim_ws(pv[i as int])));
            assert(r@.map_values(|p: String| p@) =~= nonempty_pieces(pv.take(i + 1)).map_values(
                |p: Seq<char>| trim_ws(p),
            ));
        } else {
            assert(nonempty_pieces(pv.take(i + 1)) == nonempty_pieces(pv.take(i as int)));
        }
        i = i + 1;
    }
    assert(pv.take(ps.len() as int) =~= pv);
    r
}

/// Whether the path starts with one of the prefixes.
pub open spec fn under_any(path: Seq<char>, prefixes: Seq<Seq<char>>) -> bool {
    exists|i: int| 0 <= i < prefixes.len() && seq_starts_with(path, #[trigger] prefixes[i])
}

/// The access tier of a page: "T0" under a T0 prefix, else "T1" under a T1
/// prefix, else the default.
pub open spec fn access_of(path: Seq<char>, t0: Seq<Seq<char>>, t1: Seq<Seq<char>>, default: Seq<char>) -> Seq<char> {
    if under_any(path, t0) {
        "T0"@
    } else if under_any(path, t1) {
        "T1"@
    } else {
        default
    }
}

fn starts_with_any(path: &str, prefixes: &Vec<String>) -> (r: bool)
    ensures
        r == under_any(path@, prefixes@.map_values(|p: String| p@)),
{
    let ghost pv = prefixes@.map_values(|p: String| p@);
    let mut i: usize = 0;
    while i < prefixes.len()
        invariant
            i <= prefixes.len(),
            pv == prefixes@.map_values(|p: String| p@),
            forall|j: int| 0 <= j < i ==> !seq_starts_with(path@, #[trigger] pv[j]),
        decreases prefixes.len() - i,
    {
        assert(pv[i as int] == prefixes@[i as int]@);
        if str_starts_with(path, prefixes[i].as_str()) {
            return true;
        }
        i = i + 1;
    }
    false
}

/// The access tier of a page (`access_of`).
pub fn access_for(path: &str, t0: &Vec<String>, t1: &Vec<String>, default: &str) -> (r: String)
    ensures
        r@ == access_of(path@, t0@.map_values(|p: String| p@), t1@.map_values(|p: String| p@), default@),
{
    if starts_with_any(path, t0) {
        String::from_str("T0")
    } else if starts_with_any(path, t1) {
        String::from_str("T1")
    } else {
        String::from_str(default)
    }
}

// ── Navigation ──

/// How many slashes a path holds.
pub open spec fn slash_count(s: Seq<char>) -> nat
    decreases s.len(),
{
    if s.len() == 0 {
        0
    } else {
        slash_count(s.drop_last()) + if s.last() == '/' { 1nat } else { 0nat }
    }
}

/// The part of a path before its last slash (the whole path where it has none).
pub open spec fn parent_path(s: Seq<char>) -> Seq<char>
    decreases s.len(),
{
    if s.len() == 0 {
        s
    } else if s.last() == '/' {
        s.drop_last()
    } else {
        parent_path(s.drop_last())
    }
}

/// The paths with at most one slash: the top-level pages.
pub open spec fn top_level(paths: Seq<Seq<char>>) -> Seq<Seq<char>>
    decreases paths.len(),
{
    if paths.len() == 0 {
        Seq::empty()
    } else {
        let rest = top_level(paths.drop_last());
        if slash_count(paths.last()) <= 1 { rest.push(paths.last()) } else { rest }
    }
}

/// Adds a child path to its parent's group, opening the group where there is
/// none yet.
pub open spec fn add_child(groups: Seq<(Seq<char>, Seq<Seq<char>>)>, parent: Seq<char>, child: Seq<char>) -> Seq<(Seq<char>, Seq<Seq<char>>)>
    decreases groups.len(),
{
    if groups.len() == 0 {
        seq![(parent, seq![child])]
    } else if groups[0].0 == parent {
        groups.update(0, (parent, groups[0].1.push(child)))
    } else {
        seq![groups[0]] + add_child(groups.drop_first(), parent, child)
    }
}

/// The hierarchy of the paths: each path with two slashes or more under the
/// part before its last slash; parents in order of first appearance, their
/// children in order.
pub open spec fn hierarchy_groups(paths: Seq<Seq<char>>) -> Seq<(Seq<char>, Seq<Seq<char>>)>
    decreases paths.len(),
{
    if paths.len() == 0 {
        Seq::empty()
    } else {
        let rest = hierarchy_groups(paths.drop_last());
        let p = paths.last();
        if slash_count(p) >= 2 && parent_path(p).len() > 0 { add_child(rest, parent_path(p), p) } else { rest }
    }
}

/// The entries of the navigation section: the main navigation (given, or the
/// top-level pages), the footer navigation where given, and the hierarchy of
/// the pages where there is one.
pub open spec fn navigation_entries(a: GenerateArgs, paths: Seq<Seq<char>>) -> Seq<(CborModel, CborModel)> {
    let e1: Seq<(CborModel, CborModel)> = if a.nav_main@.len() > 0 {
        seq![(tx("main"@), texts_array(list_items(a.nav_main@)))]
    } else if top_level(paths).len() > 0 {
        seq![(tx("main"@), texts_array(top_level(paths)))]
    } else {
        Seq::empty()
    };
    let e2 = if a.nav_footer@.len() > 0 { e1.push((tx("footer"@), texts_array(list_items(a.nav_footer@)))) } else { e1 };
    let h = hierarchy_groups(paths);
    if h.len() > 0 {
        e2.push((tx("hierarchy"@), cmap_of(h.map_values(|g: (Seq<char>, Seq<Seq<char>>)| (tx(g.0), texts_array(g.1))))))
    } else {
        e2
    }
}

/// The paths of the pages.
pub open spec fn page_paths(pages: Seq<PageEntry>) -> Seq<Seq<char>> {
    pages.map_values(|p: PageEntry| p.path@)
}

fn slash_count_of(s: &str) -> (r: usize)
    ensures
        r as nat == slash_count(s@),
{
    let cs = crate::text::chars_of(s);
    let mut n: usize = 0;
    let mut i: usize = 0;
    while i < cs.len()
        invariant
            i <= cs.len(),
            n as nat == slash_count(cs@.take(i as int)),
            n <= i,
        decreases cs.len() - i,
    {
        assert(cs@.take(i + 1).drop_last() =~= cs@.take(i as int));
        if cs[i] == '/' {
            n = n + 1;
        }
        i = i + 1;
    }
    assert(cs@.take(cs.len() as int) =~= cs@);
    n
}

fn parent_of(s: &str) -> (r: String)
    ensures
        r@ == parent_path(s@),
{
    let cs = crate::text::chars_of(s);
    let mut i: usize = cs.len();
    assert(cs@.take(cs.len() as int) =~= cs@);
    while i > 0 && cs[i - 1] != '/'
        invariant
            i <= cs.len(),
            parent_path(cs@) == parent_path(cs@.take(i as int)),
        decreases i,
    {
        assert(cs@.take(i as int).drop_last() =~= cs@.take(i - 1));
        i = i - 1;
    }
    if i == 0 {
        assert(cs@.take(0) =~= Seq::<char>::empty());
        String::new()
    } else {
        assert(cs@.take(i as int).drop_last() =~= cs@.take(i - 1));
        crate::text::string_of_range(&cs, 0, i - 1)
    }
}

/// The texts of a list of strings.
pub open spec fn strs_view(v: Seq<String>) -> Seq<Seq<char>> {
    v.map_values(|c: String| c@)
}

/// The texts of a list of groups of strings.
pub open spec fn groups_view(g: Seq<(String, Vec<String>)>) -> Seq<(Seq<char>, Seq<Seq<char>>)> {
    g.map_values(|e: (String, Vec<String>)| (e.0@, strs_view(e.1@)))
}

/// Adds a child to its parent's group (`add_child`).
fn add_child_exec(groups: &mut Vec<(String, Vec<String>)>, parent: String, child: String)
    ensures
        groups_view(final(groups)@) == add_child(groups_view(old(groups)@), parent@, child@),
{
    let ghost gm = groups_view(old(groups)@);
    let mut i: usize = 0;
    assert(gm.take(0) =~= Seq::<(Seq<char>, Seq<Seq<char>>)>::empty());
    assert(gm.skip(0) =~= gm);
    while i < groups.len()
        invariant
            i <= groups.len(),
            groups@ == old(groups)@,
            gm == groups_view(old(groups)@),
            add_child(gm, parent@, child@) == gm.take(i as int) + add_child(gm.skip(i as int), parent@, child@),
        decreases groups.len() - i,
    {
        if str_eq(groups[i].0.as_str(), parent.as_str()) {
            let mut g = groups.remove(i);
            let ghost gold = g.1@;
            g.1.push(child);
            groups.insert(i, g);
            proof {
                let after = groups_view(groups@);
                let rest = gm.skip(i as int);
                assert(rest[0] == gm[i as int]);
                assert(add_child(rest, parent@, child@) == rest.update(0, (parent@, rest[0].1.push(child@))));
                assert(strs_view(gold).push(child@) =~= strs_view(groups@[i as int].1@));
                assert(after =~= gm.take(i as int) + rest.update(0, (parent@, rest[0].1.push(child@))));
            }
            return;
        }
        proof {
            let rest = gm.skip(i as int);
            assert(rest[0] == gm[i as int]);
            assert(rest.drop_first() =~= gm.skip(i + 1));
            assert(gm.take(i + 1) =~= gm.take(i as int) + seq![rest[0]]);
        }
        i = i + 1;
    }
    let mut kids: Vec<String> = Vec::new();
    kids.push(child);
    groups.push((parent, kids));
    proof {
        assert(gm.skip(i as int) =~= Seq::<(Seq<char>, Seq<Seq<char>>)>::empty());
        assert(gm.take(i as int) =~= gm);
        assert(strs_view(kids@) =~= seq![child@]);
        let after = groups_view(groups@);
        assert(after =~= gm + seq![(parent@, seq![child@])]);
    }
}

/// The paths of the top-level pages.
fn top_level_paths(pages: &Vec<PageEntry>) -> (r: Vec<String>)
    ensures
        strs_view(r@) == top_level(page_paths(pages@)),
{
    let ghost paths = page_paths(pages@);
    let mut out: Vec<String> = Vec::new();
    let mut i: usize = 0;
    while i < pages.len()
        invariant
            i <= pages.len(),
            paths == page_paths(pages@),
            strs_view(out@) == top_level(paths.take(i as int)),
        decreases pages.len() - i,
    {
        proof {
            assert(paths.take(i + 1).drop_last() =~= paths.take(i as int));
            assert(paths.take(i + 1).last() == pages@[i as int].path@);
        }
        if slash_count_of(pages[i].path.as_str()) <= 1 {
            let ghost before = out@;
            out.push(pages[i].path.clone());
            assert(strs_view(out@) =~= strs_view(before).push(pages@[i as int].path@));
        }
        i = i + 1;
    }
    assert(paths.take(pages.len() as int) =~= paths);
    out
}

/// The hierarchy of the pages' paths, group by group.
fn hierarchy_of(pages: &Vec<PageEntry>) -> (r: Vec<(String, Vec<String>)>)
    ensures
        groups_view(r@) == hierarchy_groups(page_paths(pages@)),
{
    let ghost paths = page_paths(pages@);
    let mut groups: Vec<(String, Vec<String>)> = Vec::new();
    let mut i: usize = 0;
    assert(groups_view(groups@) =~= Seq::<(Seq<char>, Seq<Seq<char>>)>::empty());
    while i < pages.len()
        invariant
            i <= pages.len(),
            paths == page_paths(pages@),
            groups_view(groups@) == hierarchy_groups(paths.take(i as int)),
        decreases pages.len() - i,
    {
        proof {
            assert(paths.take(i + 1).drop_last() =~= paths.take(i as int));
            assert(paths.take(i + 1).last() == pages@[i as int].path@);
        }
        if slash_count_of(pages[i].path.as_str()) >= 2 {
            let parent = parent_of(pages[i].path.as_str());
            if !is_empty(&parent) {
                add_child_exec(&mut groups, parent, pages[i].path.clone());
            }
        }
        i = i + 1;
    }
    assert(paths.take(pages.len() as int) =~= paths);
    groups
}

/// The navigation section (key 4) of the index: the main navigation (the
/// given list, else the top-level pages), the footer navigation where given,
/// and the hierarchy of the pages where there is one.
pub fn build_navigation(args: &GenerateArgs, pages: &Vec<PageEntry>) -> (r: CborValue)
    ensures
        r@ == cmap_of(navigation_entries(*args, page_paths(pages@))),
        r.wf(),
{
    let ghost paths = page_paths(pages@);
    let mut entries: Vec<(CborValue, CborValue)> = Vec::new();
    if !is_empty(&args.nav_main) {
        let items = split_trimmed(args.nav_main.as_str(), ',');
        push_entry(&mut entries, t("main"), text_array(&items));
    } else {
        let main = top_level_paths(pages);
        if main.len() > 0 {
            push_entry(&mut entries, t("main"), text_array(&main));
        }
    }
    if !is_empty(&args.nav_footer) {
        let items = split_trimmed(args.nav_footer.as_str(), ',');
        push_entry(&mut entries, t("footer"), text_array(&items));
    }
    let groups = hierarchy_of(pages);
    if groups.len() > 0 {
        let ghost gv = groups_view(groups@);
        let mut h: Vec<(CborValue, CborValue)> = Vec::new();
        let mut i: usize = 0;
        while i < groups.len()
            invariant
                i <= groups.len(),
                gv == groups_view(groups@),
                h.len() == i,
                entries_wf(h@),
                entry_models_of(h@) == gv.take(i as int).map_values(|g: (Seq<char>, Seq<Seq<char>>)| (tx(g.0), texts_array(g.1))),
            decreases groups.len() - i,
        {
            let ghost before = h@;
            let k = t(groups[i].0.as_str());
            let v = text_array(&groups[i].1);
            push_entry(&mut h, k, v);
            assert(gv.take(i + 1) =~= gv.take(i as int).push(gv[i as int]));
            assert(entry_models_of(h@) =~= gv.take(i + 1).map_values(|g: (Seq<char>, Seq<Seq<char>>)| (tx(g.0), texts_array(g.1))));
            i = i + 1;
        }
        assert(gv.take(groups.len() as int) =~= gv);
        push_entry(&mut entries, t("hierarchy"), cmap(h));
    }
    proof {
        lemma_entry_models_of(entries@);
        assert(entry_models_of(entries@) =~= navigation_entries(*args, paths));
    }
    cmap(entries)
}

} // verus!
