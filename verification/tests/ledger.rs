use cbor_web::json::JsonValue;
use cbor_web::ledger::{
    balance_json, has_access, holder_count, holders_by_balance, holders_json, pseudo_address, stats_json,
    supply_json, transfer_json, trunc, verify_access_json, verify_wallet_signature, Ledger, TransferError,
};

const ALICE: &str = "0x1111111111111111111111111111111111111111";
const BOB: &str = "0x2222222222222222222222222222222222222222";
const ZERO: &str = "0x0000000000000000000000000000000000000000";

fn long_sig() -> String {
    "a".repeat(130)
}

fn member<'a>(v: &'a JsonValue, name: &str) -> &'a JsonValue {
    match v {
        JsonValue::Object(m) => &m.iter().rev().find(|(k, _)| k == name).expect("member").1,
        _ => panic!("not an object"),
    }
}

fn int_of(v: &JsonValue) -> i128 {
    match v {
        JsonValue::Int(n) => *n,
        _ => panic!("not an integer"),
    }
}

fn boolean(v: &JsonValue) -> bool {
    match v {
        JsonValue::Bool(b) => *b,
        _ => panic!("not a boolean"),
    }
}

fn text(v: &JsonValue) -> &str {
    match v {
        JsonValue::Str(s) => s,
        _ => panic!("not a string"),
    }
}

#[test]
fn new_ledger_is_empty() {
    let l = Ledger::new(1000);
    assert_eq!(l.total_supply, 1000);
    assert_eq!(l.balance_of(ALICE), 0);
    assert_eq!(holder_count(&l), 0);
}

#[test]
fn founder_allocation_once() {
    let mut l = Ledger::new(1000);
    assert!(l.allocate_founder(ALICE, 1000));
    assert_eq!(l.balance_of(ALICE), 1000);
    assert!(!l.allocate_founder(ALICE, 5));
    assert_eq!(l.balance_of(ALICE), 1000);
}

#[test]
fn set_balance_replaces() {
    let mut l = Ledger::new(10);
    l.set_balance(ALICE, 4);
    l.set_balance(ALICE, 7);
    assert_eq!(l.balance_of(ALICE), 7);
    assert_eq!(l.balances.len(), 1);
}

#[test]
fn transfer_moves_amount() {
    let mut l = Ledger::new(100);
    l.set_balance(ALICE, 100);
    let r = l.transfer(ALICE, BOB, 30, false, "");
    assert_eq!(r, Ok((70, 30)));
    assert_eq!(l.balance_of(ALICE), 70);
    assert_eq!(l.balance_of(BOB), 30);
}

#[test]
fn transfer_conserves_total() {
    let mut l = Ledger::new(100);
    l.set_balance(ALICE, 60);
    l.set_balance(BOB, 40);
    l.transfer(ALICE, BOB, 25, false, "").unwrap();
    l.transfer(BOB, ALICE, 5, false, "").unwrap();
    let total: u64 = l.balances.iter().map(|(_, b)| *b).sum();
    assert_eq!(total, 100);
}

#[test]
fn transfer_to_self_changes_nothing() {
    let mut l = Ledger::new(100);
    l.set_balance(ALICE, 50);
    assert_eq!(l.transfer(ALICE, ALICE, 20, false, ""), Ok((50, 50)));
    assert_eq!(l.balance_of(ALICE), 50);
}

#[test]
fn transfer_insufficient_balance() {
    let mut l = Ledger::new(100);
    l.set_balance(ALICE, 10);
    assert_eq!(l.transfer(ALICE, BOB, 11, false, ""), Err(TransferError::InsufficientBalance(10, 11)));
    assert_eq!(l.balance_of(ALICE), 10);
    assert_eq!(l.balance_of(BOB), 0);
}

#[test]
fn transfer_invalid_signature() {
    let mut l = Ledger::new(100);
    l.set_balance(ALICE, 10);
    assert_eq!(l.transfer(ALICE, BOB, 5, true, "short"), Err(TransferError::InvalidSignature));
    assert_eq!(l.balance_of(ALICE), 10);
    assert_eq!(l.transfer(ALICE, BOB, 5, true, &long_sig()), Ok((5, 5)));
}

#[test]
fn balance_checked_before_signature() {
    let mut l = Ledger::new(100);
    assert_eq!(l.transfer(ALICE, BOB, 5, true, "short"), Err(TransferError::InsufficientBalance(0, 5)));
}

#[test]
fn signature_form() {
    assert!(verify_wallet_signature(ALICE, "m", &long_sig()));
    assert!(!verify_wallet_signature(ALICE, "m", &"a".repeat(129)));
    assert!(!verify_wallet_signature("1x1111111111111111111111111111111111111111", "m", &long_sig()));
    assert!(!verify_wallet_signature("0x11", "m", &long_sig()));
}

#[test]
fn access_threshold() {
    assert!(has_access(1, 1));
    assert!(!has_access(0, 1));
    assert!(has_access(0, 0));
}

#[test]
fn pseudo_address_shape() {
    let a = pseudo_address("founder");
    assert_eq!(a.len(), 42);
    assert!(a.starts_with("0x"));
    assert!(a[2..].chars().all(|c| c.is_ascii_hexdigit() && !c.is_ascii_uppercase()));
    assert_eq!(a, pseudo_address("founder"));
    assert_ne!(a, pseudo_address("other"));
    // Keccak-256 of the empty string begins c5d2460186f7233c927e7db2dcc703c0e500b653.
    assert_eq!(pseudo_address(""), "0xc5d2460186f7233c927e7db2dcc703c0e500b653");
}

#[test]
fn trunc_addresses() {
    assert_eq!(trunc("short"), "short");
    assert_eq!(trunc("0123456789ab"), "0123456789ab");
    assert_eq!(trunc(ALICE), "0x11111111...");
}

#[test]
fn holders_sorted_by_balance() {
    let mut l = Ledger::new(100);
    l.set_balance(ALICE, 10);
    l.set_balance(BOB, 50);
    l.set_balance(ZERO, 0);
    let hs = holders_by_balance(&l);
    assert_eq!(hs, vec![(BOB.to_string(), 50), (ALICE.to_string(), 10)]);
    assert_eq!(holder_count(&l), 2);
    let j = holders_json(&l);
    assert_eq!(int_of(member(&j, "total_holders")), 2);
    match member(&j, "top") {
        JsonValue::Array(top) => {
            assert_eq!(top.len(), 2);
            assert_eq!(text(member(&top[0], "address")), BOB);
            assert_eq!(int_of(member(&top[0], "balance")), 50);
        }
        _ => panic!("top is an array"),
    }
}

#[test]
fn holders_top_is_capped_at_100() {
    let mut l = Ledger::new(1_000_000);
    for i in 0..120u64 {
        l.set_balance(&format!("0x{:040}", i), i + 1);
    }
    let j = holders_json(&l);
    assert_eq!(int_of(member(&j, "total_holders")), 120);
    match member(&j, "top") {
        JsonValue::Array(top) => {
            assert_eq!(top.len(), 100);
            assert_eq!(int_of(member(&top[0], "balance")), 120);
            assert_eq!(int_of(member(&top[99], "balance")), 21);
        }
        _ => panic!("top is an array"),
    }
}

#[test]
fn supply_and_stats_answers() {
    let mut l = Ledger::new(1000);
    l.set_balance(ALICE, 900);
    l.set_balance(ZERO, 100);
    let s = supply_json(&l, 5);
    assert_eq!(int_of(member(&s, "total_supply")), 1000);
    assert_eq!(text(member(&s, "symbol")), "CBORW");
    assert_eq!(int_of(member(&s, "decimals")), 0);
    assert_eq!(int_of(member(&s, "min_hold_for_access")), 5);
    let st = stats_json(&l);
    assert_eq!(int_of(member(&st, "circulating")), 900);
    assert_eq!(int_of(member(&st, "holders")), 2);
    l.set_balance(ZERO, 5000);
    assert_eq!(int_of(member(&stats_json(&l), "circulating")), 0);
}

#[test]
fn balance_and_access_answers() {
    let mut l = Ledger::new(1000);
    l.set_balance(ALICE, 3);
    let bj = balance_json(&l, ALICE, 5);
    assert_eq!(text(member(&bj, "address")), ALICE);
    assert_eq!(int_of(member(&bj, "balance")), 3);
    assert!(!boolean(member(&bj, "has_access")));
    let (code, a) = verify_access_json(&l, ALICE, "", "", 1, false);
    assert_eq!(code, 200);
    assert!(boolean(member(&a, "has_access")));
    assert_eq!(int_of(member(&a, "min_hold")), 1);
    let (code, a) = verify_access_json(&l, ALICE, "bad", "", 1, true);
    assert_eq!(code, 403);
    assert_eq!(text(member(&a, "error")), "invalid signature");
    assert!(!boolean(member(&a, "has_access")));
}

#[test]
fn transfer_answers() {
    let (c, j) = transfer_json(&Err(TransferError::InsufficientBalance(2, 9)));
    assert_eq!(c, 400);
    assert_eq!(text(member(&j, "error")), "insufficient balance");
    assert_eq!(int_of(member(&j, "balance")), 2);
    assert_eq!(int_of(member(&j, "required")), 9);
    let (c, j) = transfer_json(&Err(TransferError::InvalidSignature));
    assert_eq!(c, 403);
    assert_eq!(text(member(&j, "error")), "invalid signature");
    let (c, j) = transfer_json(&Ok((1, 2)));
    assert_eq!(c, 200);
    assert!(boolean(member(&j, "success")));
    assert_eq!(int_of(member(&j, "from_balance")), 1);
    assert_eq!(int_of(member(&j, "to_balance")), 2);
}

#[test]
fn trunc_keeps_short_addresses_whole_whatever_their_characters() {
    // 11 and 12 bytes with a character across byte 10: returned whole.
    assert_eq!(trunc("abcdefghié"), "abcdefghié");
    assert_eq!(trunc("abcdefghié!"), "abcdefghié!");
    assert_eq!(trunc("0x1234567890abcdef"), "0x12345678...");
    assert_eq!(trunc("0xabc"), "0xabc");
}

#[test]
fn refused_transfer_to_a_full_receiver_is_answered() {
    let mut l = Ledger::new(100);
    l.set_balance(ALICE, 10);
    l.set_balance(BOB, u64::MAX);
    assert_eq!(l.transfer(ALICE, BOB, 11, false, ""), Err(TransferError::InsufficientBalance(10, 11)));
    assert_eq!(l.transfer(ALICE, BOB, 5, true, "short"), Err(TransferError::InvalidSignature));
    assert_eq!(l.balance_of(ALICE), 10);
    assert_eq!(l.balance_of(BOB), u64::MAX);
}
