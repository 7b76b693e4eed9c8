//! The test vectors of the CBOR-Web specification: a minimal manifest, a
//! minimal page, a product page, a bundle and a manifest with navigation,
//! each a self-described document with its maps in deterministic order; and
//! the check that keys come in that order.
use vstd::prelude::*;
use crate::value::{CborValue, CborModel, t, u, ii, b, epoch, self_described, arr, entry_models_of, lemma_entry_models_of, models_of, lemma_models_of, EPOCH_TAG, SELF_DESCRIBED_TAG};
use crate::site::{tx, cmap_of, cmap, push_entry};
use crate::codec::{cbor_encoding, encode_value};
use crate::canonical::key_lt;

verus! {

/// An integer model.
pub open spec fn num(n: int) -> CborModel {
    CborModel::Integer(n)
}

/// An epoch date model.
pub open spec fn date(ts: int) -> CborModel {
    CborModel::Tag(EPOCH_TAG, Box::new(CborModel::Integer(ts)))
}

/// A self-described document model.
pub open spec fn described(inner: CborModel) -> CborModel {
    CborModel::Tag(SELF_DESCRIBED_TAG, Box::new(inner))
}

/// The site metadata of the test manifests.
pub open spec fn test_site_meta() -> CborModel {
    cmap_of(
        seq![
            (tx("domain"@), tx("test.example"@)),
            (tx("name"@), tx("Test"@)),
            (tx("languages"@), CborModel::Array(seq![tx("en"@)])),
            (tx("default_language"@), tx("en"@)),
        ],
    )
}

/// The page entry of the test manifests.
pub open spec fn test_page_entry() -> CborModel {
    cmap_of(
        seq![
            (tx("path"@), tx("/"@)),
            (tx("title"@), tx("Home"@)),
            (tx("lang"@), tx("en"@)),
            (tx("access"@), tx("public"@)),
            (tx("size"@), num(95)),
        ],
    )
}

/// The generation metadata of the test manifests.
pub open spec fn test_meta() -> CborModel {
    cmap_of(
        seq![
            (tx("generated_at"@), date(1742515200)),
            (tx("total_pages"@), num(1)),
            (tx("total_size"@), num(95)),
            (tx("bundle_available"@), CborModel::Bool(false)),
        ],
    )
}

/// The minimal manifest, without its tag.
pub open spec fn manifest_model() -> CborModel {
    cmap_of(
        seq![
            (num(0), tx("cbor-web-manifest"@)),
            (num(1), num(2)),
            (num(2), test_site_meta()),
            (num(3), CborModel::Array(seq![test_page_entry()])),
            (num(5), test_meta()),
        ],
    )
}

/// The minimal page, without its tag.
pub open spec fn page_model() -> CborModel {
    cmap_of(
        seq![
            (num(0), tx("cbor-web-page"@)),
            (num(1), num(2)),
            (
                num(2),
                cmap_of(
                    seq![
                        (tx("path"@), tx("/"@)),
                        (tx("canonical"@), tx("https://test.example/"@)),
                        (tx("lang"@), tx("en"@)),
                    ],
                ),
            ),
            (num(3), cmap_of(seq![(tx("title"@), tx("Welcome"@))])),
            (
                num(4),
                CborModel::Array(
                    seq![
                        cmap_of(seq![(tx("t"@), tx("h"@)), (tx("l"@), num(1)), (tx("v"@), tx("Welcome"@))]),
                        cmap_of(seq![(tx("t"@), tx("p"@)), (tx("v"@), tx("Hello, World!"@))]),
                    ],
                ),
            ),
        ],
    )
}

fn site_meta_value() -> (r: CborValue)
    ensures
        r@ == test_site_meta(),
        r.wf(),
{
    let mut langs: Vec<CborValue> = Vec::new();
    langs.push(t("en"));
    let mut e: Vec<(CborValue, CborValue)> = Vec::new();
    push_entry(&mut e, t("domain"), t("test.example"));
    push_entry(&mut e, t("name"), t("Test"));
    proof {
        lemma_models_of(langs@);
        assert(models_of(langs@) =~= seq![tx("en"@)]);
    }
    push_entry(&mut e, t("languages"), arr(langs));
    push_entry(&mut e, t("default_language"), t("en"));
    proof {
        lemma_entry_models_of(e@);
        assert(entry_models_of(e@) =~= seq![
            (tx("domain"@), tx("test.example"@)),
            (tx("name"@), tx("Test"@)),
            (tx("languages"@), CborModel::Array(seq![tx("en"@)])),
            (tx("default_language"@), tx("en"@)),
        ]);
    }
    cmap(e)
}

fn page_entry_value() -> (r: CborValue)
    ensures
        r@ == test_page_entry(),
        r.wf(),
{
    let mut e: Vec<(CborValue, CborValue)> = Vec::new();
    push_entry(&mut e, t("path"), t("/"));
    push_entry(&mut e, t("title"), t("Home"));
    push_entry(&mut e, t("lang"), t("en"));
    push_entry(&mut e, t("access"), t("public"));
    push_entry(&mut e, t("size"), u(95));
    proof {
        lemma_entry_models_of(e@);
        assert(entry_models_of(e@) =~= seq![
            (tx("path"@), tx("/"@)),
            (tx("title"@), tx("Home"@)),
            (tx("lang"@), tx("en"@)),
            (tx("access"@), tx("public"@)),
            (tx("size"@), num(95)),
        ]);
    }
    cmap(e)
}

fn meta_value() -> (r: CborValue)
    ensures
        r@ == test_meta(),
        r.wf(),
{
    let mut e: Vec<(CborValue, CborValue)> = Vec::new();
    push_entry(&mut e, t("generated_at"), epoch(1742515200));
    push_entry(&mut e, t("total_pages"), u(1));
    push_entry(&mut e, t("total_size"), u(95));
    push_entry(&mut e, t("bundle_available"), b(false));
    proof {
        lemma_entry_models_of(e@);
        assert(entry_models_of(e@) =~= seq![
            (tx("generated_at"@), date(1742515200)),
            (tx("total_pages"@), num(1)),
            (tx("total_size"@), num(95)),
            (tx("bundle_available"@), CborModel::Bool(false)),
        ]);
    }
    cmap(e)
}

/// The minimal manifest, without its tag (`manifest_model`).
pub fn manifest_map() -> (r: CborValue)
    ensures
        r@ == manifest_model(),
        r.wf(),
{
    let mut pages: Vec<CborValue> = Vec::new();
    pages.push(page_entry_value());
    proof {
        lemma_models_of(pages@);
        assert(models_of(pages@) =~= seq![test_page_entry()]);
    }
    let mut e: Vec<(CborValue, CborValue)> = Vec::new();
    push_entry(&mut e, ii(0), t("cbor-web-manifest"));
    push_entry(&mut e, ii(1), u(2));
    push_entry(&mut e, ii(2), site_meta_value());
    push_entry(&mut e, ii(3), arr(pages));
    push_entry(&mut e, ii(5), meta_value());
    proof {
        lemma_entry_models_of(e@);
        assert(entry_models_of(e@) =~= seq![
            (num(0), tx("cbor-web-manifest"@)),
            (num(1), num(2)),
            (num(2), test_site_meta()),
            (num(3), CborModel::Array(seq![test_page_entry()])),
            (num(5), test_meta()),
        ]);
    }
    cmap(e)
}

/// Test vector 1: the minimal manifest, self-described.
pub fn test_vector_1_manifest() -> (r: CborValue)
    ensures
        r@ == described(manifest_model()),
        r.wf(),
{
    self_described(manifest_map())
}

fn pair_block(k1: &str, v1: &str, k2: &str, v2: &str) -> (r: CborValue)
    ensures
        r@ == cmap_of(seq![(tx(k1@), tx(v1@)), (tx(k2@), tx(v2@))]),
        r.wf(),
{
    let mut e: Vec<(CborValue, CborValue)> = Vec::new();
    push_entry(&mut e, t(k1), t(v1));
    push_entry(&mut e, t(k2), t(v2));
    proof {
        lemma_entry_models_of(e@);
        assert(entry_models_of(e@) =~= seq![(tx(k1@), tx(v1@)), (tx(k2@), tx(v2@))]);
    }
    cmap(e)
}

/// The minimal page, without its tag (`page_model`).
pub fn page_map() -> (r: CborValue)
    ensures
        r@ == page_model(),
        r.wf(),
{
    let mut identity: Vec<(CborValue, CborValue)> = Vec::new();
    push_entry(&mut identity, t("path"), t("/"));
    push_entry(&mut identity, t("canonical"), t("https://test.example/"));
    push_entry(&mut identity, t("lang"), t("en"));
    let mut metadata: Vec<(CborValue, CborValue)> = Vec::new();
    push_entry(&mut metadata, t("title"), t("Welcome"));
    let mut heading: Vec<(CborValue, CborValue)> = Vec::new();
    push_entry(&mut heading, t("t"), t("h"));
    push_entry(&mut heading, t("l"), u(1));
    push_entry(&mut heading, t("v"), t("Welcome"));
    proof {
        lemma_entry_models_of(identity@);
        lemma_entry_models_of(metadata@);
        lemma_entry_models_of(heading@);
        assert(entry_models_of(identity@) =~= seq![
            (tx("path"@), tx("/"@)),
            (tx("canonical"@), tx("https://test.example/"@)),
            (tx("lang"@), tx("en"@)),
        ]);
        assert(entry_models_of(metadata@) =~= seq![(tx("title"@), tx("Welcome"@))]);
        assert(entry_models_of(heading@) =~= seq![(tx("t"@), tx("h"@)), (tx("l"@), num(1)), (tx("v"@), tx("Welcome"@))]);
    }
    let mut blocks: Vec<CborValue> = Vec::new();
    blocks.push(cmap(heading));
    blocks.push(pair_block("t", "p", "v", "Hello, World!"));
    proof {
        lemma_models_of(blocks@);
        assert(models_of(blocks@) =~= seq![
            cmap_of(seq![(tx("t"@), tx("h"@)), (tx("l"@), num(1)), (tx("v"@), tx("Welcome"@))]),
            cmap_of(seq![(tx("t"@), tx("p"@)), (tx("v"@), tx("Hello, World!"@))]),
        ]);
    }
    let mut e: Vec<(CborValue, CborValue)> = Vec::new();
    push_entry(&mut e, ii(0), t("cbor-web-page"));
    push_entry(&mut e, ii(1), u(2));
    push_entry(&mut e, ii(2), cmap(identity));
    push_entry(&mut e, ii(3), cmap(metadata));
    push_entry(&mut e, ii(4), arr(blocks));
    proof {
        lemma_entry_models_of(e@);
        assert(entry_models_of(e@) =~= seq![
            (num(0), tx("cbor-web-page"@)),
            (num(1), num(2)),
            (num(2), cmap_of(seq![
                (tx("path"@), tx("/"@)),
                (tx("canonical"@), tx("https://test.example/"@)),
                (tx("lang"@), tx("en"@)),
            ])),
            (num(3), cmap_of(seq![(tx("title"@), tx("Welcome"@))])),
            (num(4), CborModel::Array(seq![
                cmap_of(seq![(tx("t"@), tx("h"@)), (tx("l"@), num(1)), (tx("v"@), tx("Welcome"@))]),
                cmap_of(seq![(tx("t"@), tx("p"@)), (tx("v"@), tx("Hello, World!"@))]),
            ])),
        ]);
    }
    cmap(e)
}

/// Test vector 2: the minimal page, self-described.
pub fn test_vector_2_page() -> (r: CborValue)
    ensures
        r@ == described(page_model()),
        r.wf(),
{
    self_described(page_map())
}

/// Test vector 4: a bundle of the minimal manifest and the minimal page under
/// its path "/", self-described.
pub open spec fn bundle_model() -> CborModel {
    described(
        cmap_of(
            seq![
                (num(0), tx("cbor-web-bundle"@)),
                (num(1), num(2)),
                (num(2), manifest_model()),
                (num(3), cmap_of(seq![(tx("/"@), page_model())])),
            ],
        ),
    )
}

pub fn test_vector_4_bundle() -> (r: CborValue)
    ensures
        r@ == bundle_model(),
        r.wf(),
{
    let mut pages: Vec<(CborValue, CborValue)> = Vec::new();
    push_entry(&mut pages, t("/"), page_map());
    proof {
        lemma_entry_models_of(pages@);
        assert(entry_models_of(pages@) =~= seq![(tx("/"@), page_model())]);
    }
    let mut e: Vec<(CborValue, CborValue)> = Vec::new();
    push_entry(&mut e, ii(0), t("cbor-web-bundle"));
    push_entry(&mut e, ii(1), u(2));
    push_entry(&mut e, ii(2), manifest_map());
    push_entry(&mut e, ii(3), cmap(pages));
    proof {
        lemma_entry_models_of(e@);
        assert(entry_models_of(e@) =~= seq![
            (num(0), tx("cbor-web-bundle"@)),
            (num(1), num(2)),
            (num(2), manifest_model()),
            (num(3), cmap_of(seq![(tx("/"@), page_model())])),
        ]);
    }
    self_described(cmap(e))
}

/// The bit pattern of the binary64 number 29.90, the product's price.
pub const PRICE_BITS: u64 = 0x403D_E666_6666_6666;

/// The identity of the product page.
pub open spec fn product_identity() -> CborModel {
    cmap_of(
        seq![
            (tx("path"@), tx("/products/lions-mane"@)),
            (tx("canonical"@), tx("https://verdetao.com/products/lions-mane"@)),
            (tx("lang"@), tx("fr"@)),
            (tx("alternates"@), cmap_of(seq![(tx("es"@), tx("/es/productos/melena-de-leon"@))])),
        ],
    )
}

/// The metadata of the product page.
pub open spec fn product_metadata() -> CborModel {
    cmap_of(
        seq![
            (tx("title"@), tx("Lion's Mane"@)),
            (tx("category"@), tx("products"@)),
            (tx("updated"@), date(1742428800)),
            (tx("tags"@), CborModel::Array(seq![tx("champignon"@), tx("nootropique"@)])),
        ],
    )
}

/// The content blocks of the product page.
pub open spec fn product_blocks() -> Seq<CborModel> {
    seq![
        cmap_of(seq![(tx("t"@), tx("h"@)), (tx("l"@), num(1)), (tx("v"@), tx("Lion's Mane"@))]),
        cmap_of(seq![(tx("t"@), tx("p"@)), (tx("v"@), tx("Extrait de Hericium erinaceus concentre 10:1."@))]),
        cmap_of(
            seq![
                (tx("t"@), tx("table"@)),
                (tx("headers"@), CborModel::Array(seq![tx("Propriete"@), tx("Valeur"@)])),
                (
                    tx("rows"@),
                    CborModel::Array(
                        seq![
                            CborModel::Array(seq![tx("Prix"@), tx("29.90 EUR"@)]),
                            CborModel::Array(seq![tx("Capsules"@), tx("90"@)]),
                        ],
                    ),
                ),
            ],
        ),
        cmap_of(
            seq![(tx("t"@), tx("cta"@)), (tx("v"@), tx("Ajouter au panier"@)), (tx("href"@), tx("/cart/add/lions-mane"@))],
        ),
    ]
}

/// The structured data of the product page.
pub open spec fn product_structured() -> CborModel {
    cmap_of(
        seq![
            (tx("type"@), tx("Product"@)),
            (tx("name"@), tx("Lion's Mane"@)),
            (
                tx("offers"@),
                cmap_of(
                    seq![
                        (tx("type"@), tx("Offer"@)),
                        (tx("price"@), CborModel::Float(PRICE_BITS)),
                        (tx("priceCurrency"@), tx("EUR"@)),
                        (tx("availability"@), tx("InStock"@)),
                    ],
                ),
            ),
        ],
    )
}

/// Test vector 3: a product page with alternates, tags, a table, a call to
/// action and structured data, self-described.
pub open spec fn product_model() -> CborModel {
    described(
        cmap_of(
            seq![
                (num(0), tx("cbor-web-page"@)),
                (num(1), num(2)),
                (num(2), product_identity()),
                (num(3), product_metadata()),
                (num(4), CborModel::Array(product_blocks())),
                (num(6), product_structured()),
            ],
        ),
    )
}

fn texts2(a: &str, b2: &str) -> (r: CborValue)
    ensures
        r@ == CborModel::Array(seq![tx(a@), tx(b2@)]),
        r.wf(),
{
    let mut v: Vec<CborValue> = Vec::new();
    v.push(t(a));
    v.push(t(b2));
    proof {
        lemma_models_of(v@);
        assert(models_of(v@) =~= seq![tx(a@), tx(b2@)]);
    }
    arr(v)
}

fn entries_of4(
    k1: CborValue, v1: CborValue, k2: CborValue, v2: CborValue,
    k3: CborValue, v3: CborValue, k4: CborValue, v4: CborValue,
) -> (r: CborValue)
    requires
        k1.wf() && v1.wf() && k2.wf() && v2.wf() && k3.wf() && v3.wf() && k4.wf() && v4.wf(),
    ensures
        r@ == cmap_of(seq![(k1@, v1@), (k2@, v2@), (k3@, v3@), (k4@, v4@)]),
        r.wf(),
{
    let mut e: Vec<(CborValue, CborValue)> = Vec::new();
    push_entry(&mut e, k1, v1);
    push_entry(&mut e, k2, v2);
    push_entry(&mut e, k3, v3);
    push_entry(&mut e, k4, v4);
    proof {
        lemma_entry_models_of(e@);
        assert(entry_models_of(e@) =~= seq![(k1@, v1@), (k2@, v2@), (k3@, v3@), (k4@, v4@)]);
    }
    cmap(e)
}

fn entries_of3(k1: CborValue, v1: CborValue, k2: CborValue, v2: CborValue, k3: CborValue, v3: CborValue) -> (r: CborValue)
    requires
        k1.wf() && v1.wf() && k2.wf() && v2.wf() && k3.wf() && v3.wf(),
    ensures
        r@ == cmap_of(seq![(k1@, v1@), (k2@, v2@), (k3@, v3@)]),
        r.wf(),
{
    let mut e: Vec<(CborValue, CborValue)> = Vec::new();
    push_entry(&mut e, k1, v1);
    push_entry(&mut e, k2, v2);
    push_entry(&mut e, k3, v3);
    proof {
        lemma_entry_models_of(e@);
        assert(entry_models_of(e@) =~= seq![(k1@, v1@), (k2@, v2@), (k3@, v3@)]);
    }
    cmap(e)
}

pub fn test_vector_3_product() -> (r: CborValue)
    ensures
        r@ == product_model(),
        r.wf(),
{
    let mut alt: Vec<(CborValue, CborValue)> = Vec::new();
    push_entry(&mut alt, t("es"), t("/es/productos/melena-de-leon"));
    proof {
        lemma_entry_models_of(alt@);
        assert(entry_models_of(alt@) =~= seq![(tx("es"@), tx("/es/productos/melena-de-leon"@))]);
    }
    let identity = entries_of4(
        t("path"), t("/products/lions-mane"),
        t("canonical"), t("https://verdetao.com/products/lions-mane"),
        t("lang"), t("fr"),
        t("alternates"), cmap(alt),
    );
    let metadata = entries_of4(
        t("title"), t("Lion's Mane"),
        t("category"), t("products"),
        t("updated"), epoch(1742428800),
        t("tags"), texts2("champignon", "nootropique"),
    );
    let h1 = entries_of3(t("t"), t("h"), t("l"), u(1), t("v"), t("Lion's Mane"));
    let p1 = pair_block("t", "p", "v", "Extrait de Hericium erinaceus concentre 10:1.");
    let mut rows: Vec<CborValue> = Vec::new();
    rows.push(texts2("Prix", "29.90 EUR"));
    rows.push(texts2("Capsules", "90"));
    proof {
        lemma_models_of(rows@);
        assert(models_of(rows@) =~= seq![
            CborModel::Array(seq![tx("Prix"@), tx("29.90 EUR"@)]),
            CborModel::Array(seq![tx("Capsules"@), tx("90"@)]),
        ]);
    }
    let tbl = entries_of3(t("t"), t("table"), t("headers"), texts2("Propriete", "Valeur"), t("rows"), arr(rows));
    let cta = entries_of3(t("t"), t("cta"), t("v"), t("Ajouter au panier"), t("href"), t("/cart/add/lions-mane"));
    let offers = entries_of4(
        t("type"), t("Offer"),
        t("price"), CborValue::Float(PRICE_BITS),
        t("priceCurrency"), t("EUR"),
        t("availability"), t("InStock"),
    );
    let structured = entries_of3(t("type"), t("Product"), t("name"), t("Lion's Mane"), t("offers"), offers);
    let mut blocks: Vec<CborValue> = Vec::new();
    blocks.push(h1);
    blocks.push(p1);
    blocks.push(tbl);
    blocks.push(cta);
    proof {
        lemma_models_of(blocks@);
    }
    let mut e: Vec<(CborValue, CborValue)> = Vec::new();
    push_entry(&mut e, ii(0), t("cbor-web-page"));
    push_entry(&mut e, ii(1), u(2));
    push_entry(&mut e, ii(2), identity);
    push_entry(&mut e, ii(3), metadata);
    push_entry(&mut e, ii(4), arr(blocks));
    push_entry(&mut e, ii(6), structured);
    proof {
        lemma_entry_models_of(e@);
        assert(models_of(blocks@) =~= product_blocks());
        assert(entry_models_of(e@) =~= seq![
            (num(0), tx("cbor-web-page"@)),
            (num(1), num(2)),
            (num(2), product_identity()),
            (num(3), product_metadata()),
            (num(4), CborModel::Array(product_blocks())),
            (num(6), product_structured()),
        ]);
    }
    self_described(cmap(e))
}

/// A navigation link.
pub open spec fn nav_link(label: Seq<char>, href: Seq<char>) -> CborModel {
    cmap_of(seq![(tx("label"@), tx(label)), (tx("href"@), tx(href))])
}

/// Test vector 5: the minimal manifest with a main and a footer navigation,
/// self-described.
pub open spec fn navigation_model() -> CborModel {
    described(
        cmap_of(
            seq![
                (num(0), tx("cbor-web-manifest"@)),
                (num(1), num(2)),
                (num(2), test_site_meta()),
                (num(3), CborModel::Array(seq![test_page_entry()])),
                (
                    num(4),
                    cmap_of(
                        seq![
                            (tx("main"@), CborModel::Array(seq![nav_link("Home"@, "/"@), nav_link("Products"@, "/products"@)])),
                            (tx("footer"@), CborModel::Array(seq![nav_link("Privacy"@, "/privacy"@), nav_link("Terms"@, "/terms"@)])),
                        ],
                    ),
                ),
                (num(5), test_meta()),
            ],
        ),
    )
}

fn links2(l1: &str, h1: &str, l2: &str, h2: &str) -> (r: CborValue)
    ensures
        r@ == CborModel::Array(seq![nav_link(l1@, h1@), nav_link(l2@, h2@)]),
        r.wf(),
{
    let mut v: Vec<CborValue> = Vec::new();
    v.push(pair_block("label", l1, "href", h1));
    v.push(pair_block("label", l2, "href", h2));
    proof {
        lemma_models_of(v@);
        assert(models_of(v@) =~= seq![nav_link(l1@, h1@), nav_link(l2@, h2@)]);
    }
    arr(v)
}

pub fn test_vector_5_navigation() -> (r: CborValue)
    ensures
        r@ == navigation_model(),
        r.wf(),
{
    let mut nav: Vec<(CborValue, CborValue)> = Vec::new();
    push_entry(&mut nav, t("main"), links2("Home", "/", "Products", "/products"));
    push_entry(&mut nav, t("footer"), links2("Privacy", "/privacy", "Terms", "/terms"));
    proof {
        lemma_entry_models_of(nav@);
        assert(entry_models_of(nav@) =~= seq![
            (tx("main"@), CborModel::Array(seq![nav_link("Home"@, "/"@), nav_link("Products"@, "/products"@)])),
            (tx("footer"@), CborModel::Array(seq![nav_link("Privacy"@, "/privacy"@), nav_link("Terms"@, "/terms"@)])),
        ]);
    }
    let mut pages: Vec<CborValue> = Vec::new();
    pages.push(page_entry_value());
    proof {
        lemma_models_of(pages@);
        assert(models_of(pages@) =~= seq![test_page_entry()]);
    }
    let mut e: Vec<(CborValue, CborValue)> = Vec::new();
    push_entry(&mut e, ii(0), t("cbor-web-manifest"));
    push_entry(&mut e, ii(1), u(2));
    push_entry(&mut e, ii(2), site_meta_value());
    push_entry(&mut e, ii(3), arr(pages));
    push_entry(&mut e, ii(4), cmap(nav));
    push_entry(&mut e, ii(5), meta_value());
    proof {
        lemma_entry_models_of(e@);
        assert(entry_models_of(e@) =~= seq![
            (num(0), tx("cbor-web-manifest"@)),
            (num(1), num(2)),
            (num(2), test_site_meta()),
            (num(3), CborModel::Array(seq![test_page_entry()])),
            (
                num(4),
                cmap_of(
                    seq![
                        (tx("main"@), CborModel::Array(seq![nav_link("Home"@, "/"@), nav_link("Products"@, "/products"@)])),
                        (tx("footer"@), CborModel::Array(seq![nav_link("Privacy"@, "/privacy"@), nav_link("Terms"@, "/terms"@)])),
                    ],
                ),
            ),
            (num(5), test_meta()),
        ]);
    }
    self_described(cmap(e))
}

// ── Key order ──

/// The text keys are in the deterministic order of their encodings.
pub open spec fn keys_in_order(keys: Seq<Seq<char>>) -> bool {
    forall|i: int| 0 < i < keys.len() ==> key_lt(cbor_encoding(tx(#[trigger] keys[i - 1])), cbor_encoding(tx(keys[i])))
}

/// The first key that does not come after the one before it in the
/// deterministic order, where there is one.
pub fn key_order_violation(keys: &Vec<&str>) -> (r: Option<usize>)
    ensures
        match r {
            Some(i) => 0 < i < keys@.len() && !key_lt(cbor_encoding(tx(keys@[i - 1]@)), cbor_encoding(tx(keys@[i as int]@)))
                && forall|j: int| 0 < j < i ==> key_lt(cbor_encoding(tx(#[trigger] keys@[j - 1]@)), cbor_encoding(tx(keys@[j]@))),
            None => forall|j: int| 0 < j < keys@.len() ==> key_lt(cbor_encoding(tx(#[trigger] keys@[j - 1]@)), cbor_encoding(tx(keys@[j]@))),
        },
{
    let mut i: usize = 1;
    while i < keys.len()
        invariant
            1 <= i,
            forall|j: int| 0 < j < i && j < keys@.len() ==> key_lt(cbor_encoding(tx(#[trigger] keys@[j - 1]@)), cbor_encoding(tx(keys@[j]@))),
        decreases keys.len() - i,
    {
        let prev = encode_value(&t(keys[i - 1]));
        let cur = encode_value(&t(keys[i]));
        if !crate::canonical::key_less(&prev, &cur) {
            return Some(i);
        }
        i = i + 1;
    }
    None
}

/// The uppercase hexadecimal of the bytes in lines of 64 digits.
pub open spec fn hex_lines_of(data: Seq<u8>) -> Seq<Seq<char>> {
    let h = crate::digest::hex_text(data, true);
    Seq::new(
        ((h.len() + 63) / 64) as nat,
        |k: int| h.subrange(64 * k, if 64 * k + 64 <= h.len() { 64 * k + 64 } else { h.len() as int }),
    )
}

/// The uppercase hexadecimal of the bytes in lines of 64 digits
/// (`hex_lines_of`).
pub fn hex_lines(data: &[u8]) -> (r: Vec<String>)
    ensures
        r@.map_values(|s: String| s@) == hex_lines_of(data@),
{
    let h = crate::digest::hex_encode_upper(data);
    let cs = crate::text::chars_of(h.as_str());
    let ghost hv = crate::digest::hex_text(data@, true);
    let len = cs.len();
    let n: usize = len / 64 + if len % 64 == 0 { 0 } else { 1 };
    proof {
        assert(n == (len + 63) / 64) by (nonlinear_arith)
            requires
                n == len / 64 + if len % 64 == 0 { 0int } else { 1int },
        ;
    }
    let mut out: Vec<String> = Vec::new();
    let mut k: usize = 0;
    let mut start: usize = 0;
    while k < n
        invariant
            cs@ == hv,
            len == cs.len(),
            n == (len + 63) / 64,
            k <= n,
            k < n ==> start == 64 * k,
            out.len() == k,
            forall|j: int| 0 <= j < k ==> (#[trigger] out@[j])@ == hv.subrange(64 * j, if 64 * j + 64 <= hv.len() { 64 * j + 64 } else { hv.len() as int }),
        decreases n - k,
    {
        proof {
            assert(64 * k < len) by (nonlinear_arith)
                requires
                    k < n,
                    n == (len + 63) / 64,
            ;
        }
        let full = len - start >= 64;
        let end = if full { start + 64 } else { len };
        out.push(crate::text::string_of_range(&cs, start, end));
        k = k + 1;
        if full {
            start = start + 64;
        } else {
            proof {
                assert(k >= n) by (nonlinear_arith)
                    requires
                        64 * (k - 1) < len,
                        len < 64 * (k - 1) + 64,
                        n == (len + 63) / 64,
                ;
            }
        }
    }
    assert(out@.map_values(|s: String| s@) =~= hex_lines_of(data@));
    out
}


/// A test vector's encoding and the uppercase hexadecimal of the SHA-256 of
/// that encoding.
pub fn encoded_vector(v: &CborValue) -> (r: (Vec<u8>, String))
    requires
        v.wf(),
    ensures
        r.0@ == cbor_encoding(v@),
        r.1@ == crate::digest::hex_text(crate::digest::sha256_spec(cbor_encoding(v@)), true),
        (v@ is Tag && v@->Tag_0 == SELF_DESCRIBED_TAG) ==> crate::codec::is_self_described_prefix(r.0@),
{
    let bytes = encode_value(v);
    let digest = crate::digest::sha256(bytes.as_slice());
    let h = crate::digest::hex_encode_upper(digest.as_slice());
    (bytes, h)
}

} // verus!
