use faucet_core::consolidate::{plan_cycle, plan_split, SpendableOutput};
use faucet_core::status::{collect_found, WithdrawalStatus};
use faucet_core::types::TransactionRef;

fn output(handle: u64, output_index: usize, amount: u64) -> SpendableOutput {
    SpendableOutput { transaction: TransactionRef { handle }, output_index, amount }
}

#[test]
fn split_nine_drops_plus_remainder() {
    // D = 100, A = 950, MAX_IO = 20: k = min(9, 18) = 9 drops of 100 plus
    // one remainder of 50; ten outputs in all, summing to 950.
    let outs = plan_split(950, 100, 20).unwrap();
    assert_eq!(outs, vec![100, 100, 100, 100, 100, 100, 100, 100, 100, 50]);
    assert_eq!(outs.iter().sum::<u64>(), 950);
    assert_eq!(outs.len(), 10);
}

#[test]
fn split_excludes_amount_at_one_drop() {
    assert!(plan_split(100, 100, 20).is_none());
    assert!(plan_split(40, 100, 20).is_none());
}

#[test]
fn split_without_remainder() {
    let outs = plan_split(300, 100, 20).unwrap();
    assert_eq!(outs, vec![100, 100, 100]);
}

#[test]
fn split_capped_by_transaction_size() {
    // A huge source output: the drop count stops at MAX_IO - 2 and the
    // rest rides in the remainder, so input + outputs fit the cap.
    let outs = plan_split(10_000, 10, 20).unwrap();
    assert_eq!(outs.len(), 19);
    assert!(outs.len() + 1 <= 20);
    assert_eq!(outs.iter().sum::<u64>(), 10_000);
    assert!(outs[..18].iter().all(|&a| a == 10));
    assert_eq!(outs[18], 10_000 - 18 * 10);
}

#[test]
fn split_sum_always_matches_source() {
    for amount in [101, 150, 199, 200, 201, 999, 1000, 5000, 123_456] {
        let outs = plan_split(amount, 100, 20).unwrap();
        assert_eq!(outs.iter().sum::<u64>(), amount);
        assert!(outs.len() <= 19);
        assert!(outs[..outs.len() - 1].iter().all(|&a| a == 100));
    }
}

#[test]
fn cycle_plans_only_oversized_outputs() {
    let outputs = vec![
        output(1, 0, 950),
        output(2, 1, 100),
        output(3, 0, 40),
        output(4, 2, 250),
    ];
    let steps = plan_cycle(&outputs, 100, 20);
    assert_eq!(steps.len(), 2);
    assert_eq!(steps[0].source, output(1, 0, 950));
    assert_eq!(steps[0].amounts.len(), 10);
    assert_eq!(steps[1].source, output(4, 2, 250));
    assert_eq!(steps[1].amounts, vec![100, 100, 50]);
}

#[test]
fn cycle_with_nothing_oversized_builds_nothing() {
    let outputs = vec![output(1, 0, 100), output(2, 0, 7)];
    assert!(plan_cycle(&outputs, 100, 20).is_empty());
}

#[test]
fn status_labels() {
    let t = TransactionRef { handle: 5 };
    assert_eq!(WithdrawalStatus::Pending { transaction: t }.label(), "pending");
    assert_eq!(WithdrawalStatus::Confirming { transaction: t }.label(), "confirming");
    assert_eq!(WithdrawalStatus::Confirmed { transaction: t }.label(), "confirmed");
    assert_eq!(WithdrawalStatus::Expired { transaction: t }.label(), "expired");
    assert_eq!(WithdrawalStatus::Pending { transaction: t }.transaction(), t);
}

#[test]
fn collect_found_skips_untracked_ids() {
    let a = WithdrawalStatus::Pending { transaction: TransactionRef { handle: 1 } };
    let b = WithdrawalStatus::Confirmed { transaction: TransactionRef { handle: 2 } };
    let lookups = vec![Some(a), None, Some(b), None];
    assert_eq!(collect_found(&lookups), vec![a, b]);
}
