use faucet_core::lifecycle::{apply_submission, confirm_withdrawal};
use faucet_core::registry::WithdrawalRegistry;
use faucet_core::types::{Identity, WithdrawalId};

fn wallet(key: u64) -> Identity {
    Identity { key }
}

fn wid(value: u128) -> WithdrawalId {
    WithdrawalId { value }
}

fn sorted_values(reg: &WithdrawalRegistry, identity: Identity) -> Vec<u128> {
    let mut v: Vec<u128> = reg.query(identity).iter().map(|id| id.value).collect();
    v.sort();
    v
}

#[test]
fn query_after_record_includes_id() {
    let mut reg = WithdrawalRegistry::new();
    reg.record(wallet(1), wid(10));
    assert!(reg.query(wallet(1)).contains(&wid(10)));
}

#[test]
fn query_absent_identity_is_empty() {
    let reg = WithdrawalRegistry::new();
    assert!(reg.query(wallet(1)).is_empty());
    assert!(!reg.contains_identity(wallet(1)));
}

#[test]
fn record_is_idempotent_for_same_id() {
    let mut reg = WithdrawalRegistry::new();
    reg.record(wallet(1), wid(10));
    reg.record(wallet(1), wid(10));
    assert_eq!(reg.query(wallet(1)).len(), 1);
}

#[test]
fn record_keeps_identities_apart() {
    let mut reg = WithdrawalRegistry::new();
    reg.record(wallet(1), wid(10));
    reg.record(wallet(2), wid(20));
    reg.record(wallet(1), wid(11));
    assert_eq!(sorted_values(&reg, wallet(1)), vec![10, 11]);
    assert_eq!(sorted_values(&reg, wallet(2)), vec![20]);
}

#[test]
fn release_removes_id_and_empty_identity() {
    let mut reg = WithdrawalRegistry::new();
    reg.record(wallet(1), wid(10));
    reg.record(wallet(1), wid(11));
    reg.release(wid(10));
    assert_eq!(sorted_values(&reg, wallet(1)), vec![11]);
    assert!(reg.contains_identity(wallet(1)));
    reg.release(wid(11));
    assert!(reg.query(wallet(1)).is_empty());
    assert!(!reg.contains_identity(wallet(1)));
}

#[test]
fn release_twice_same_as_once() {
    let mut once = WithdrawalRegistry::new();
    let mut twice = WithdrawalRegistry::new();
    for reg in [&mut once, &mut twice] {
        reg.record(wallet(1), wid(10));
        reg.record(wallet(1), wid(11));
        reg.record(wallet(2), wid(20));
        reg.release(wid(10));
    }
    twice.release(wid(10));
    for key in 0..4 {
        assert_eq!(sorted_values(&once, wallet(key)), sorted_values(&twice, wallet(key)));
        assert_eq!(once.contains_identity(wallet(key)), twice.contains_identity(wallet(key)));
    }
}

#[test]
fn release_of_unknown_id_is_noop() {
    let mut reg = WithdrawalRegistry::new();
    reg.record(wallet(1), wid(10));
    reg.release(wid(99));
    assert_eq!(sorted_values(&reg, wallet(1)), vec![10]);
    assert!(reg.contains_identity(wallet(1)));
}

#[test]
fn no_identity_kept_with_empty_set() {
    // An identity appears as a key exactly while it has an id in flight,
    // across an arbitrary record/release interleaving.
    let mut reg = WithdrawalRegistry::new();
    let ops: [(bool, u64, u128); 9] = [
        (true, 1, 10),
        (true, 2, 20),
        (false, 0, 10),
        (true, 1, 11),
        (true, 3, 30),
        (false, 0, 30),
        (false, 0, 11),
        (true, 2, 21),
        (false, 0, 20),
    ];
    for (is_record, key, value) in ops {
        if is_record {
            reg.record(wallet(key), wid(value));
        } else {
            reg.release(wid(value));
        }
        for k in 0..5 {
            assert_eq!(reg.contains_identity(wallet(k)), !reg.query(wallet(k)).is_empty());
        }
    }
    assert_eq!(sorted_values(&reg, wallet(2)), vec![21]);
    assert!(!reg.contains_identity(wallet(1)));
    assert!(!reg.contains_identity(wallet(3)));
}

#[test]
fn failed_submission_records_nothing() {
    let mut reg = WithdrawalRegistry::new();
    let r = apply_submission(&mut reg, wallet(1), None);
    assert_eq!(r, None);
    assert!(!reg.contains_identity(wallet(1)));
}

#[test]
fn confirmation_for_unknown_id_is_noop() {
    let mut reg = WithdrawalRegistry::new();
    reg.record(wallet(1), wid(10));
    let untrack = confirm_withdrawal(&mut reg, wid(99));
    assert_eq!(untrack.id, wid(99));
    assert_eq!(sorted_values(&reg, wallet(1)), vec![10]);
}

#[test]
fn withdrawal_end_to_end() {
    // Submit for W, see the returned id in flight; confirm it, and W is
    // gone as a key entirely since it was W's only withdrawal.
    let mut reg = WithdrawalRegistry::new();
    let submitted = apply_submission(&mut reg, wallet(7), Some(wid(77)));
    assert_eq!(submitted, Some(wid(77)));
    assert!(reg.query(wallet(7)).contains(&wid(77)));
    let untrack = confirm_withdrawal(&mut reg, wid(77));
    assert_eq!(untrack.id, wid(77));
    assert!(reg.query(wallet(7)).is_empty());
    assert!(!reg.contains_identity(wallet(7)));
}
