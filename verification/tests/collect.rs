use cbor_web::canonical::canonical_map;
use cbor_web::collect::{CollectAction, CollectEvent, CollectStage, Collector};
use cbor_web::crawl::{path_to_filename, PageEntry};
use cbor_web::digest::sha256_hex;
use cbor_web::json::JsonValue;
use cbor_web::value::{self_described, t, u, CborValue};
use cbor_web::vectors::{encoded_vector, test_vector_2_page};

fn entry(path: &str, access: &str, hash: Option<&str>) -> PageEntry {
    PageEntry { path: path.to_string(), access: access.to_string(), hash: hash.map(|h| h.to_string()) }
}

fn bytes_of(v: CborValue) -> Vec<u8> {
    encoded_vector(&self_described(v)).0
}

fn page_bytes() -> Vec<u8> {
    bytes_of(test_vector_2_page())
}

#[test]
fn pages_one_by_one_skip_protected_ones() {
    let entries = vec![entry("/", "T2", None), entry("/private", "T0", None), entry("/about", "T1", None), entry("/vip", "token", None)];
    let mut c = Collector::new(entries, false);
    match c.step(CollectEvent::Next) {
        CollectAction::FetchPage(0, f) => assert_eq!(f, path_to_filename("/")),
        other => panic!("unexpected {:?}", other),
    }
    assert!(matches!(c.step(CollectEvent::PageFetched(page_bytes())), CollectAction::Stored(None)));
    assert!(matches!(c.stage, CollectStage::After(0)));
    assert!(matches!(c.step(CollectEvent::Next), CollectAction::Skip(1)));
    match c.step(CollectEvent::Next) {
        CollectAction::FetchPage(2, f) => assert_eq!(f, "about.cbor"),
        other => panic!("unexpected {:?}", other),
    }
    assert!(matches!(c.step(CollectEvent::PageFailed), CollectAction::Stored(None)));
    assert!(matches!(c.step(CollectEvent::Next), CollectAction::Skip(3)));
    assert!(matches!(c.step(CollectEvent::Next), CollectAction::Finish));
    assert!(matches!(c.stage, CollectStage::Finished));
    assert_eq!(c.pages.len(), 1);
    assert_eq!(c.pages[0].0, "/");
}

#[test]
fn bundle_with_pages_ends_the_collection() {
    let bundle = canonical_map(vec![(u(0), t("cbor-web-bundle")), (u(3), canonical_map(vec![(t("/x"), test_vector_2_page())]))]);
    let mut c = Collector::new(vec![entry("/", "T2", None)], true);
    assert!(matches!(c.step(CollectEvent::Next), CollectAction::FetchBundle));
    assert!(matches!(c.step(CollectEvent::BundleFetched(bytes_of(bundle))), CollectAction::Finish));
    assert_eq!(c.pages.len(), 1);
    assert_eq!(c.pages[0].0, "/x");
}

#[test]
fn empty_bundle_falls_back_to_pages() {
    let bundle = canonical_map(vec![(u(0), t("cbor-web-bundle"))]);
    let mut c = Collector::new(vec![entry("/", "T2", None)], true);
    assert!(matches!(c.step(CollectEvent::Next), CollectAction::FetchBundle));
    assert!(matches!(c.step(CollectEvent::BundleFetched(bytes_of(bundle))), CollectAction::FetchPage(0, _)));
    assert!(c.pages.is_empty());
}

#[test]
fn failed_bundle_falls_back_to_pages() {
    let mut c = Collector::new(vec![entry("/private", "T0", None), entry("/a", "T2", None)], true);
    assert!(matches!(c.step(CollectEvent::Next), CollectAction::FetchBundle));
    assert!(matches!(c.step(CollectEvent::BundleFailed), CollectAction::Skip(0)));
    assert!(matches!(c.step(CollectEvent::Next), CollectAction::FetchPage(1, _)));
}

#[test]
fn unreadable_bundle_stops_the_collection() {
    let mut c = Collector::new(vec![], true);
    c.step(CollectEvent::Next);
    assert!(matches!(c.step(CollectEvent::BundleFetched(vec![0xff])), CollectAction::Fail(None, _)));
    assert!(matches!(c.stage, CollectStage::Failed));
    assert!(matches!(c.step(CollectEvent::Next), CollectAction::Idle));
}

#[test]
fn unreadable_page_stops_with_its_hash_difference() {
    let mut c = Collector::new(vec![entry("/", "T2", Some("00"))], false);
    c.step(CollectEvent::Next);
    match c.step(CollectEvent::PageFetched(vec![0xff])) {
        CollectAction::Fail(Some((expected, computed)), _) => {
            assert_eq!(expected, "00");
            assert_eq!(computed, sha256_hex(&[0xff]));
        }
        other => panic!("unexpected {:?}", other),
    }
}

#[test]
fn hash_difference_is_reported_and_page_kept() {
    let bytes = page_bytes();
    let mut c = Collector::new(vec![entry("/", "T2", Some("00"))], false);
    c.step(CollectEvent::Next);
    match c.step(CollectEvent::PageFetched(bytes.clone())) {
        CollectAction::Stored(Some((expected, computed))) => {
            assert_eq!(expected, "00");
            assert_eq!(computed, sha256_hex(&bytes));
        }
        other => panic!("unexpected {:?}", other),
    }
    assert_eq!(c.pages.len(), 1);
    let good = sha256_hex(&bytes);
    let mut c = Collector::new(vec![entry("/", "T2", Some(&good))], false);
    c.step(CollectEvent::Next);
    assert!(matches!(c.step(CollectEvent::PageFetched(bytes)), CollectAction::Stored(None)));
}

#[test]
fn events_out_of_turn_change_nothing() {
    let mut c = Collector::new(vec![entry("/", "T2", None)], false);
    assert!(matches!(c.step(CollectEvent::PageFailed), CollectAction::Idle));
    assert!(matches!(c.stage, CollectStage::Start));
    assert!(matches!(c.step(CollectEvent::Next), CollectAction::FetchPage(0, _)));
    assert!(matches!(c.step(CollectEvent::Next), CollectAction::Idle));
    assert!(matches!(c.stage, CollectStage::AwaitPage(0)));
    assert!(c.pages.iter().all(|(_, v)| !matches!(v, JsonValue::Null)));
}
