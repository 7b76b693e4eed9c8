use cbor_web::canonical::{canonical_map, key_less};
use cbor_web::crawl::{has_self_described_tag, parse_cbor_document};
use cbor_web::value::{b, ii, t, u, values_equal, CborValue};
use cbor_web::vectors::{
    encoded_vector, hex_lines, key_order_violation, test_vector_1_manifest, test_vector_2_page,
    test_vector_3_product, test_vector_4_bundle, test_vector_5_navigation,
};

fn keys_of(v: &CborValue) -> Vec<String> {
    match v {
        CborValue::Mapping(entries) => entries.iter().map(|(k, _)| format!("{:?}", k)).collect(),
        _ => panic!("not a map"),
    }
}

#[test]
fn canonical_map_orders_by_encoded_key() {
    let m = canonical_map(vec![(t("bb"), u(1)), (t("a"), u(2)), (u(10), u(3)), (ii(-1), b(true))]);
    // 10 and -1 encode in one byte (0x0A, 0x20), "a" in two, "bb" in three.
    assert_eq!(
        keys_of(&m),
        vec![
            format!("{:?}", u(10)),
            format!("{:?}", ii(-1)),
            format!("{:?}", t("a")),
            format!("{:?}", t("bb")),
        ]
    );
}

#[test]
fn canonical_map_ignores_insertion_order() {
    let m1 = canonical_map(vec![(t("name"), u(1)), (t("domain"), u(2)), (u(0), t("x"))]);
    let m2 = canonical_map(vec![(u(0), t("x")), (t("domain"), u(2)), (t("name"), u(1))]);
    assert!(values_equal(&m1, &m2));
    let (e1, _) = encoded_vector(&m1);
    let (e2, _) = encoded_vector(&m2);
    assert_eq!(e1, e2);
}

#[test]
fn canonical_map_is_idempotent() {
    let m = canonical_map(vec![(t("zz"), u(1)), (t("a"), u(2))]);
    let entries = match &m {
        CborValue::Mapping(e) => e.iter().map(|(k, v)| (cbor_web::value::clone_value(k), cbor_web::value::clone_value(v))).collect(),
        _ => panic!("not a map"),
    };
    let again = canonical_map(entries);
    assert!(values_equal(&m, &again));
}

#[test]
fn key_less_is_length_first() {
    assert!(key_less(&vec![0x05], &vec![0x00, 0x00]));
    assert!(!key_less(&vec![0x00, 0x00], &vec![0x05]));
    assert!(key_less(&vec![0x61, 0x61], &vec![0x61, 0x62]));
    assert!(!key_less(&vec![0x61, 0x62], &vec![0x61, 0x62]));
}

#[test]
fn key_order_of_vector_maps() {
    assert_eq!(key_order_violation(&vec!["name", "domain", "languages", "default_language"]), None);
    assert_eq!(key_order_violation(&vec!["lang", "path", "size", "title", "access"]), None);
    assert_eq!(key_order_violation(&vec!["total_size", "total_pages", "generated_at", "bundle_available"]), None);
    assert_eq!(key_order_violation(&vec!["lang", "path", "canonical"]), None);
    assert_eq!(key_order_violation(&vec!["l", "t", "v"]), None);
    assert_eq!(key_order_violation(&vec!["domain", "name"]), Some(1));
    assert_eq!(key_order_violation(&vec!["a", "b", "a"]), Some(2));
    assert_eq!(key_order_violation(&vec!["b", "b"]), Some(1));
}

#[test]
fn vectors_are_self_described() {
    for v in [test_vector_1_manifest(), test_vector_2_page(), test_vector_3_product(), test_vector_4_bundle(), test_vector_5_navigation()] {
        let (bytes, sha) = encoded_vector(&v);
        assert_eq!(&bytes[0..3], &[0xD9, 0xD9, 0xF7]);
        assert!(has_self_described_tag(&bytes));
        assert_eq!(sha.len(), 64);
        assert!(sha.chars().all(|c| c.is_ascii_digit() || ('A'..='F').contains(&c)));
    }
}

#[test]
fn vector_sha_is_sha256_of_encoding() {
    let (bytes, sha) = encoded_vector(&u(0));
    assert_eq!(bytes, vec![0x00]);
    // SHA-256 of the single byte 0x00.
    assert_eq!(sha, "6E340B9CFFB37A989CA544E6BB780A2C78901D3FB33738768511A30617AFA01D");
}

#[test]
fn vector_encoding_small_values() {
    assert_eq!(encoded_vector(&t("a")).0, vec![0x61, 0x61]);
    assert_eq!(encoded_vector(&ii(-1)).0, vec![0x20]);
    assert_eq!(encoded_vector(&b(true)).0, vec![0xF5]);
    assert_eq!(encoded_vector(&u(500)).0, vec![0x19, 0x01, 0xF4]);
}

#[test]
fn vector_round_trips_through_parse() {
    let v = test_vector_2_page();
    let (bytes, _) = encoded_vector(&v);
    let parsed = parse_cbor_document(&bytes).expect("decodes");
    match v {
        CborValue::Tag(55799, inner) => assert!(values_equal(&parsed, &inner)),
        _ => panic!("vector is tagged"),
    }
}

#[test]
fn parse_rejects_truncated_bytes() {
    assert!(parse_cbor_document(&[0xD9, 0xD9]).is_err());
    assert!(parse_cbor_document(&[]).is_err());
}

#[test]
fn parse_keeps_other_tags() {
    let parsed = parse_cbor_document(&[0xC1, 0x01]).expect("decodes");
    assert_eq!(format!("{:?}", parsed), format!("{:?}", CborValue::Tag(1, Box::new(u(1)))));
}

#[test]
fn hex_lines_split_at_64_digits() {
    let data: Vec<u8> = (0u8..40).collect();
    let lines = hex_lines(&data);
    assert_eq!(lines.len(), 2);
    assert_eq!(lines[0].len(), 64);
    assert_eq!(lines[1].len(), 16);
    assert!(lines[0].starts_with("000102030405060708090A0B"));
    assert!(hex_lines(&[]).is_empty());
    assert_eq!(hex_lines(&[0xAB]), vec!["AB".to_string()]);
}
