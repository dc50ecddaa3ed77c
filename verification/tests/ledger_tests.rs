use sha2::{Digest, Sha256};
use utxo_ledger::ledger::{LedgerError, TransactionManager};
use utxo_ledger::numerals::u64_to_string;
use utxo_ledger::records::{Transaction, VIn, VOut};
use utxo_ledger::User;

fn alice() -> User {
    User::new("alice".to_string(), "alice_pk".to_string(), "alice_sk".to_string())
}

fn bob() -> User {
    User::new("bob".to_string(), "bob_pk".to_string(), "bob_sk".to_string())
}

#[test]
fn user_new_keeps_fields() {
    let u = User::new("juan".to_string(), "juan123".to_string(), "j123".to_string());
    assert_eq!(u.username, "juan");
    assert_eq!(u.pub_key, "juan123");
    assert_eq!(u.priv_key, "j123");
}

#[test]
fn numerals_render_decimal() {
    assert_eq!(u64_to_string(0), "0");
    assert_eq!(u64_to_string(7), "7");
    assert_eq!(u64_to_string(42), "42");
    assert_eq!(u64_to_string(1000), "1000");
    assert_eq!(u64_to_string(u64::MAX), "18446744073709551615");
}

#[test]
fn coinbase_credits_the_user() {
    let a = alice();
    let mut m = TransactionManager::new();
    m.create_coinbase(&a, 20);
    assert_eq!(m.get_balance(&a), 20);
}

#[test]
fn transfer_moves_value_and_returns_change() {
    let a = alice();
    let b = bob();
    let mut m = TransactionManager::new();
    m.create_coinbase(&a, 20);
    assert!(m.send(&a, &b, 8).is_ok());
    assert_eq!(m.get_balance(&a), 12);
    assert_eq!(m.get_balance(&b), 8);
}

#[test]
fn chained_transfers_settle_exactly() {
    let a = alice();
    let b = bob();
    let mut m = TransactionManager::new();
    m.create_coinbase(&a, 20);
    assert!(m.send(&a, &b, 10).is_ok());
    assert!(m.send(&b, &a, 3).is_ok());
    assert!(m.send(&a, &b, 10).is_ok());
    assert_eq!(m.get_balance(&a), 3);
    assert_eq!(m.get_balance(&b), 17);
}

#[test]
fn insufficient_transfer_is_reported_and_changes_nothing() {
    let a = alice();
    let b = bob();
    let mut m = TransactionManager::new();
    m.create_coinbase(&a, 5);
    let before_a = m.get_balance(&a);
    let before_b = m.get_balance(&b);
    let before_unspent = m.get_unspent(&a);
    let r = m.send(&a, &b, 6);
    assert_eq!(r, Err(LedgerError::InsufficientFunds));
    assert_eq!(m.get_balance(&a), before_a);
    assert_eq!(m.get_balance(&b), before_b);
    let after_unspent = m.get_unspent(&a);
    assert_eq!(before_unspent.len(), after_unspent.len());
    for (x, y) in before_unspent.iter().zip(after_unspent.iter()) {
        assert_eq!(x.0, y.0);
        assert_eq!(x.1.id, y.1.id);
        assert_eq!(x.1.value, y.1.value);
    }
}

#[test]
fn empty_ledger_reports_insufficient() {
    let a = alice();
    let b = bob();
    let mut m = TransactionManager::new();
    assert_eq!(m.send(&a, &b, 1), Err(LedgerError::InsufficientFunds));
    assert_eq!(m.get_balance(&a), 0);
}

#[test]
fn spent_output_never_resolves_again() {
    let a = alice();
    let b = bob();
    let mut m = TransactionManager::new();
    m.create_coinbase(&a, 20);
    let minted = m.get_unspent(&a);
    assert_eq!(minted.len(), 1);
    let minted_id = minted[0].0.clone();
    let minted_out = minted[0].1.id;
    assert!(m.send(&a, &b, 8).is_ok());
    // the coinbase output was consumed: neither user resolves it again,
    // in this query or any later one
    for _ in 0..2 {
        for user in [&a, &b] {
            for (txid, out) in m.get_unspent(user) {
                assert!(!(txid == minted_id && out.id == minted_out));
            }
        }
        assert!(m.send(&b, &a, 1).is_ok());
    }
}

#[test]
fn unspent_is_newest_first_with_change() {
    let a = alice();
    let b = bob();
    let mut m = TransactionManager::new();
    m.create_coinbase(&a, 20);
    m.create_coinbase(&a, 5);
    assert!(m.send(&a, &b, 3).is_ok());
    // the newest coinbase (5) was consumed, change of 2 came back; alice now
    // holds the change (newest) and the untouched first coinbase
    let u = m.get_unspent(&a);
    assert_eq!(u.len(), 2);
    assert_eq!(u[0].1.value, 2);
    assert_eq!(u[0].1.id, 1);
    assert_eq!(u[1].1.value, 20);
    assert_eq!(m.get_balance(&a), 22);
    assert_eq!(m.get_balance(&b), 3);
}

#[test]
fn exact_transfer_leaves_no_change() {
    let a = alice();
    let b = bob();
    let mut m = TransactionManager::new();
    m.create_coinbase(&a, 10);
    assert!(m.send(&a, &b, 10).is_ok());
    assert_eq!(m.get_balance(&a), 0);
    assert_eq!(m.get_balance(&b), 10);
    assert_eq!(m.get_unspent(&a).len(), 0);
}

#[test]
fn try_get_balance_detects_overflow() {
    let a = alice();
    let mut m = TransactionManager::new();
    m.create_coinbase(&a, u32::MAX);
    assert_eq!(m.try_get_balance(&a), Some(u32::MAX));
    m.create_coinbase(&a, 1);
    assert_eq!(m.try_get_balance(&a), None);
}

fn sample_record(timestamp: u64) -> Transaction {
    let vins = vec![VIn {
        id: 0,
        txdir: "".to_string(),
        vout: 0,
        firm: "".to_string(),
        pub_key: "".to_string(),
    }];
    let vouts = vec![VOut {
        id: 0,
        username: "alice".to_string(),
        hashed_pub_key: "alice_pk".to_string(),
        value: 20,
    }];
    let users = vec!["alice_pk".to_string()];
    Transaction::new_at(0, timestamp, vins, vouts, users, true)
}

#[test]
fn content_hash_is_deterministic_and_field_sensitive() {
    let t1 = sample_record(1700000000);
    let t2 = sample_record(1700000000);
    assert_eq!(t1.hash, t2.hash);
    // a different instant changes the hash
    let t3 = sample_record(1700000001);
    assert_ne!(t1.hash, t3.hash);
    // a different field value changes the hash
    let vins = vec![VIn {
        id: 0,
        txdir: "".to_string(),
        vout: 0,
        firm: "".to_string(),
        pub_key: "".to_string(),
    }];
    let vouts = vec![VOut {
        id: 0,
        username: "alice".to_string(),
        hashed_pub_key: "alice_pk".to_string(),
        value: 21,
    }];
    let users = vec!["alice_pk".to_string()];
    let t4 = Transaction::new_at(0, 1700000000, vins, vouts, users, true);
    assert_ne!(t1.hash, t4.hash);
}

#[test]
fn content_hash_matches_an_independent_digest() {
    let t = sample_record(1700000000);
    // rebuild the preimage by hand: the instant, then each input
    // (output-count, id, source, output-number, signature, key), then each
    // output (output-count, id, key, name, value), then each participant
    // (participant-count, key)
    let mut preimage = String::new();
    preimage.push_str("1700000000");
    preimage.push_str(&format!("{}{}{}{}{}{}", 1, 0, "", 0, "", ""));
    preimage.push_str(&format!("{}{}{}{}{}", 1, 0, "alice_pk", "alice", 20));
    preimage.push_str(&format!("{}{}", 1, "alice_pk"));
    let expected = format!("{:x}", Sha256::digest(preimage.as_bytes()));
    assert_eq!(t.hash, expected);
    assert_eq!(t.hash.len(), 64);
    assert_eq!(t.id, "0");
    assert_eq!(t.timestamp, 1700000000);
}

#[test]
fn record_identifiers_follow_append_order() {
    let a = alice();
    let b = bob();
    let mut m = TransactionManager::new();
    m.create_coinbase(&a, 20);
    assert!(m.send(&a, &b, 8).is_ok());
    let ua = m.get_unspent(&a);
    let ub = m.get_unspent(&b);
    // both unspent outputs were minted by the transfer, the second record
    assert_eq!(ua.len(), 1);
    assert_eq!(ua[0].0, "1");
    assert_eq!(ua[0].1.value, 12);
    assert_eq!(ub.len(), 1);
    assert_eq!(ub[0].0, "1");
    assert_eq!(ub[0].1.value, 8);
}
