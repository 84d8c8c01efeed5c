use airdrop_snapshot::account::{module_account, treasury_account, AccountKey};
use airdrop_snapshot::audit::{
    check_counts, check_dataset, concat_balances, expectation, AuditError, Dataset, Expectation,
};
use airdrop_snapshot::delta::snapshot_delta;
use airdrop_snapshot::pipeline::{
    balances_comingchat_mine, balances_sherpax_crowdloan, check_genesis_balances,
    check_origin_duplicate, filter_snapshots, to_vesting_genesis, MIN_TRANSFER,
};
use airdrop_snapshot::precision::{
    rescale, saturating_scale, translate_decimal_from_12_to_18_balances,
    translate_decimal_from_8_to_18_balances,
};
use airdrop_snapshot::reconcile::{checked_total, deduplicate, detect_duplicates, find_key, merge_sum};
use airdrop_snapshot::records::SherpaXBalances;
use airdrop_snapshot::vesting::{build_cliff_vesting, to_vesting_transfer, VESTING_LENGTH, VESTING_START};

fn key(n: u8) -> AccountKey {
    AccountKey { bytes: [n; 32] }
}

fn amounts(list: &[(AccountKey, u128)]) -> u128 {
    list.iter().map(|r| r.1).sum()
}

#[test]
fn end_to_end_delta_scenario() {
    let (a, b, t) = (key(1), key(2), key(9));
    let old = vec![(a, 100), (b, 50), (t, 10)];
    let new = vec![(a, 40), (b, 50)];
    let (g, x) = snapshot_delta(&old, &new, 10, &t).unwrap();
    assert_eq!(g, vec![(t, 10), (a, 40), (b, 50)]);
    assert_eq!(x, vec![(a, 60)]);
    assert_eq!(amounts(&g) + amounts(&x), 100 + 50 + 10);
}

#[test]
fn threshold_exact_decrease_is_transferred() {
    let (a, t) = (key(1), key(9));
    let old = vec![(a, 2 * MIN_TRANSFER), (t, 5)];
    let new = vec![(a, MIN_TRANSFER)];
    let (g, x) = snapshot_delta(&old, &new, MIN_TRANSFER, &t).unwrap();
    assert_eq!(x, vec![(a, MIN_TRANSFER)]);
    assert_eq!(g, vec![(t, 5), (a, MIN_TRANSFER)]);
}

#[test]
fn threshold_one_unit_short_stays_at_genesis() {
    let (a, t) = (key(1), key(9));
    let old = vec![(a, 2 * MIN_TRANSFER), (t, 5)];
    let new = vec![(a, MIN_TRANSFER + 1)];
    let (g, x) = snapshot_delta(&old, &new, MIN_TRANSFER, &t).unwrap();
    assert!(x.is_empty());
    assert_eq!(g, vec![(t, 5), (a, 2 * MIN_TRANSFER)]);
}

#[test]
fn delta_drops_account_that_fully_exits_and_keeps_increases() {
    let (a, b, c, t) = (key(1), key(2), key(3), key(9));
    let old = vec![(a, 30), (b, 20), (c, 7), (t, 1)];
    let new = vec![(a, 0), (b, 25)];
    let (g, x) = snapshot_delta(&old, &new, 10, &t).unwrap();
    assert_eq!(g, vec![(t, 1), (c, 7), (b, 20)]);
    assert_eq!(x, vec![(a, 30)]);
}

#[test]
fn delta_without_treasury_is_refused() {
    let old = vec![(key(1), 5)];
    assert!(snapshot_delta(&old, &vec![], 1, &key(9)).is_none());
    let ss1 = SherpaXBalances { balances: old };
    let ss2 = SherpaXBalances { balances: vec![] };
    assert!(matches!(filter_snapshots(&ss1, &ss2), Err(AuditError::TreasuryMissing)));
}

#[test]
fn filter_snapshots_sets_treasury_aside() {
    let t = treasury_account();
    let a = key(1);
    let ss1 = SherpaXBalances { balances: vec![(t, 7), (a, 3 * MIN_TRANSFER)] };
    let ss2 = SherpaXBalances { balances: vec![(a, MIN_TRANSFER), (t, 0)] };
    let (g, x) = filter_snapshots(&ss1, &ss2).unwrap();
    assert_eq!(g.balances, vec![(t, 7), (a, MIN_TRANSFER)]);
    assert_eq!(x.balances, vec![(a, 2 * MIN_TRANSFER)]);
}

#[test]
fn treasury_account_is_module_derived() {
    let t = treasury_account();
    let mut expected = [0u8; 32];
    expected[..12].copy_from_slice(b"modlpcx/trsy");
    assert_eq!(t.bytes, expected);
    assert_eq!(module_account(*b"pcx/trsy"), t);
}

#[test]
fn deduplicate_keeps_first_and_is_idempotent() {
    let (a, b) = (key(1), key(2));
    let list = vec![(a, 1), (b, 2), (a, 3), (b, 4), (a, 5)];
    let once = deduplicate(&list);
    assert_eq!(once, vec![(a, 1), (b, 2)]);
    assert_eq!(deduplicate(&once), once);
    assert!(deduplicate(&vec![]).is_empty());
}

#[test]
fn detect_duplicates_reports_each_repeat() {
    let (a, b, c) = (key(1), key(2), key(3));
    let list = vec![(a, 1), (b, 2), (a, 3), (c, 4), (a, 5), (b, 6)];
    assert_eq!(detect_duplicates(&list), vec![a, a, b]);
    assert_eq!(find_key(&list, &c), Some(3));
    assert_eq!(find_key(&list, &key(4)), None);
}

#[test]
fn merge_sum_conserves_total() {
    let (a, b) = (key(1), key(2));
    let list = vec![(a, 10), (b, 5), (a, 7)];
    let m = merge_sum(&list).unwrap();
    assert_eq!(m, vec![(a, 17), (b, 5)]);
    assert_eq!(amounts(&m), amounts(&list));
}

#[test]
fn merge_sum_overflow_is_fatal() {
    let a = key(1);
    assert!(merge_sum(&vec![(a, u128::MAX), (key(2), 1), (a, 1)]).is_none());
    assert_eq!(checked_total(&vec![(a, u128::MAX), (a, 1)]), None);
    assert_eq!(checked_total(&vec![(a, 4), (a, 1)]), Some(5));
}

#[test]
fn rescale_multiplies_and_saturates() {
    let (a, b) = (key(1), key(2));
    let list = vec![(a, 3), (b, 21_407)];
    let r = rescale(&list, 1_000_000);
    assert_eq!(r, vec![(a, 3_000_000), (b, 21_407_000_000)]);
    assert_eq!(amounts(&r), 1_000_000 * amounts(&list));
    assert_eq!(saturating_scale(u128::MAX / 2 + 1, 2), u128::MAX);
    assert_eq!(saturating_scale(7, 0), 0);
}

#[test]
fn translate_decimals() {
    let a = key(1);
    let mut b8 = SherpaXBalances { balances: vec![(a, 214074281900000)] };
    translate_decimal_from_8_to_18_balances(&mut b8);
    assert_eq!(b8.balances, vec![(a, 2140742819000000000000000)]);
    let mut b12 = SherpaXBalances { balances: vec![(a, 5)] };
    translate_decimal_from_12_to_18_balances(&mut b12);
    assert_eq!(b12.balances, vec![(a, 5_000_000)]);
}

#[test]
fn normalized_sources_are_sorted_by_amount() {
    let (a, b) = (key(1), key(2));
    let mined = balances_comingchat_mine(SherpaXBalances { balances: vec![(a, 3), (b, 1)] });
    assert_eq!(mined.balances, vec![(b, 10_000_000_000), (a, 30_000_000_000)]);
    let crowd = balances_sherpax_crowdloan(SherpaXBalances { balances: vec![(a, 2)] });
    assert_eq!(crowd.balances, vec![(a, 20_000_000_000)]);
}

#[test]
fn cliff_vesting_splits_a_tenth_plus_correction() {
    let (a, b, t) = (key(1), key(2), key(9));
    let balances = vec![(a, 100), (t, 1000), (b, 55), (a, 9)];
    let corrections = vec![(b, 4)];
    let v = build_cliff_vesting(&balances, &t, &corrections).unwrap();
    assert_eq!(v, vec![(a, VESTING_START, VESTING_LENGTH, 10), (b, VESTING_START, VESTING_LENGTH, 9)]);
    assert_eq!(VESTING_START, 1_296_000);
    assert_eq!(VESTING_LENGTH, 2_592_000);
}

#[test]
fn transfer_schedule_in_decimal_text() {
    let a = key(1);
    let s = to_vesting_transfer(&SherpaXBalances { balances: vec![(a, 10_368_000_123), (a, 7)] });
    assert_eq!(s.schedules.len(), 2);
    assert_eq!(s.schedules[0], (a, "10368000123".to_string(), "2000".to_string(), 3_888_000));
    assert_eq!(s.schedules[1], (a, "7".to_string(), "0".to_string(), 3_888_000));
}

#[test]
fn dataset_checks_report_each_error() {
    let (a, b) = (key(1), key(2));
    let exp = Expectation { count: 2, total: 30 };
    let ok = check_dataset(SherpaXBalances { balances: vec![(a, 10), (b, 20), (a, 99)] }, exp).unwrap();
    assert_eq!(ok.balances, vec![(a, 10), (b, 20)]);
    assert_eq!(
        check_counts(&vec![(a, 10)], exp),
        Err(AuditError::CountMismatch { expected_count: 2, actual_count: 1 })
    );
    assert_eq!(
        check_counts(&vec![(a, 10), (b, 21)], exp),
        Err(AuditError::TotalMismatch { expected_total: 30, actual_total: 31 })
    );
    assert_eq!(check_counts(&vec![(a, u128::MAX), (b, 1)], exp), Err(AuditError::TotalOverflow));
}

#[test]
fn audited_expectations() {
    assert_eq!(
        expectation(Dataset::ChainxSnapshot1),
        Expectation { count: 7418, total: 10500000000000000000000000 }
    );
    assert_eq!(
        expectation(Dataset::DuplicateContributorsInVesting),
        Expectation { count: 35, total: 617479000000000000000 }
    );
}

#[test]
fn origin_duplicates_are_reported() {
    let (a, b) = (key(1), key(2));
    let lists = vec![
        SherpaXBalances { balances: vec![(a, 1), (b, 2)] },
        SherpaXBalances { balances: vec![(b, 3)] },
    ];
    assert_eq!(concat_balances(&lists), vec![(a, 1), (b, 2), (b, 3)]);
    let report = check_origin_duplicate(&lists);
    assert_eq!(report.duplicates, vec![b]);
    assert!(report.needs_manual_review);
}

#[test]
fn genesis_and_vesting_checks_fail_on_small_inputs() {
    let lists = vec![SherpaXBalances { balances: vec![(key(1), 1)] }];
    assert_eq!(
        check_genesis_balances(&lists),
        Err(AuditError::CountMismatch { expected_count: 7418 + 334721 + 1873, actual_count: 1 })
    );
    assert_eq!(
        to_vesting_genesis(&lists, &vec![]).err(),
        Some(AuditError::CountMismatch { expected_count: 7418 + 334721 - 1 - 5, actual_count: 1 })
    );
}
