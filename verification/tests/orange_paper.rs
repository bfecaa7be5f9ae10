use blvm_primitives::constants::M_MAX;
use blvm_primitives::orange_paper_helpers::{
    expected_blockreward_from_orange_paper, expected_getblocksubsidy_from_orange_paper,
    expected_halvingepoch_from_orange_paper, expected_remainingsupply_from_orange_paper,
    expected_totalsupply_from_orange_paper, expected_utxosetvalue_from_orange_paper,
    expected_validatesupplylimit_from_orange_paper, expected_workfromtarget_from_orange_paper,
};

#[test]
fn subsidy_schedule() {
    assert_eq!(expected_getblocksubsidy_from_orange_paper(0), 5_000_000_000);
    assert_eq!(expected_getblocksubsidy_from_orange_paper(209_999), 5_000_000_000);
    assert_eq!(expected_getblocksubsidy_from_orange_paper(210_000), 2_500_000_000);
    assert_eq!(expected_getblocksubsidy_from_orange_paper(840_000), 312_500_000);
    assert_eq!(expected_getblocksubsidy_from_orange_paper(33 * 210_000), 0);
    assert_eq!(expected_getblocksubsidy_from_orange_paper(u64::MAX), 0);
    assert_eq!(expected_halvingepoch_from_orange_paper(840_000), 4);
}

#[test]
fn supply_totals() {
    assert_eq!(expected_totalsupply_from_orange_paper(0), 5_000_000_000);
    assert_eq!(expected_totalsupply_from_orange_paper(1), 10_000_000_000);
    assert_eq!(expected_totalsupply_from_orange_paper(209_999), 210_000 * 5_000_000_000);
    assert_eq!(
        expected_totalsupply_from_orange_paper(210_000),
        210_000 * 5_000_000_000 + 2_500_000_000
    );
    let all = expected_totalsupply_from_orange_paper(33 * 210_000);
    assert_eq!(all, 2_099_999_997_690_000);
    assert!(all <= M_MAX);
    assert!(expected_validatesupplylimit_from_orange_paper(7_000_000));
    assert_eq!(expected_remainingsupply_from_orange_paper(7_000_000), M_MAX - all);
    assert_eq!(expected_remainingsupply_from_orange_paper(0), M_MAX - 5_000_000_000);
}

#[test]
fn reward_work_and_sums() {
    assert_eq!(expected_blockreward_from_orange_paper(0, 1_000), 5_000_001_000);
    assert_eq!(expected_workfromtarget_from_orange_paper(0), u128::MAX);
    assert_eq!(expected_workfromtarget_from_orange_paper(1), u128::MAX / 2);
    assert_eq!(expected_workfromtarget_from_orange_paper(u64::MAX), u128::MAX / (1u128 << 64));
    assert_eq!(expected_utxosetvalue_from_orange_paper(&[]), 0);
    assert_eq!(expected_utxosetvalue_from_orange_paper(&[5, -2, 10]), 13);
}

/// The UTXO-set value does not depend on the order of the amounts.
#[test]
fn utxo_set_value_ignores_order() {
    let a = [5_000_000_000i64, -3, 70, 0, 12];
    let b = [12i64, 0, 5_000_000_000, 70, -3];
    assert_eq!(expected_utxosetvalue_from_orange_paper(&a), 5_000_000_079);
    assert_eq!(expected_utxosetvalue_from_orange_paper(&b), 5_000_000_079);
    assert_eq!(expected_utxosetvalue_from_orange_paper(&[]), 0);
}
