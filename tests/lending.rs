use bbl_backend::asset_proof::{
    get_bitcoin_address, get_bitcoin_balance, verify_bitcoin_transaction, ProofError,
};
use bbl_backend::pricing::{collateral_value, interest_due, NANOS_PER_DAY, NANOS_PER_YEAR};
use bbl_backend::{Identity, LoanError, LoanRequest, LoanService, LoanStatus};

fn alice() -> Identity {
    Identity::new(vec![1, 2, 3])
}

fn bob() -> Identity {
    Identity::new(vec![9, 8])
}

fn request(collateral: u64, amount: u64, days: u32) -> LoanRequest {
    LoanRequest { collateral_amount: collateral, requested_amount: amount, loan_duration_days: days }
}

fn service_with_alice() -> LoanService {
    let mut s = LoanService::new();
    s.create_user_profile(alice(), 10).unwrap();
    s
}

#[test]
fn max_loan_at_default_price() {
    let s = LoanService::new();
    assert_eq!(s.get_btc_price().btc_price_cents, 4_500_000);
    assert_eq!(collateral_value(100_000_000, 4_500_000), 4_500_000);
    assert_eq!(s.calculate_max_loan(100_000_000), 3_150_000);
}

#[test]
fn max_loan_accepted_one_more_refused() {
    let mut s = service_with_alice();
    let max = s.calculate_max_loan(100_000_000);
    let loan = s.request_loan(&alice(), request(100_000_000, max, 30), 100).unwrap();
    assert_eq!(loan.loan_amount, 3_150_000);
    assert_eq!(loan.id, 1);
    let err = s.request_loan(&alice(), request(100_000_000, max + 1, 30), 100).unwrap_err();
    assert_eq!(
        err,
        LoanError::LtvExceeded { loan_amount: 3_150_001, collateral_value: 4_500_000 }
    );
}

#[test]
fn max_loan_consistency_over_collaterals() {
    let mut s = service_with_alice();
    for c in [1_000u64, 12_345, 99_999_999, 250_000_000, 7] {
        let max = s.calculate_max_loan(c);
        if max >= 1 {
            assert!(s.request_loan(&alice(), request(c, max, 1), 5).is_ok());
        }
        let err = s.request_loan(&alice(), request(c, max + 1, 1), 5).unwrap_err();
        assert!(matches!(err, LoanError::LtvExceeded { .. }));
    }
}

#[test]
fn accepted_loans_stay_within_ltv() {
    let mut s = service_with_alice();
    for (c, a) in [(100_000_000u64, 3_150_000u64), (50_000_000, 1_000_000), (3, 1)] {
        let _ = s.request_loan(&alice(), request(c, a, 10), 1);
    }
    for loan in s.get_user_loans(&alice()) {
        assert!(loan.loan_amount as u128 * 10 <= loan.collateral_value * 7);
    }
    assert_eq!(s.get_user_loans(&alice()).len(), 2);
}

#[test]
fn zero_collateral_is_a_validation_error() {
    let mut s = service_with_alice();
    assert_eq!(
        s.request_loan(&alice(), request(0, 1_000, 30), 1).unwrap_err(),
        LoanError::ValidationError
    );
    assert_eq!(
        s.request_loan(&alice(), request(0, 0, 0), 1).unwrap_err(),
        LoanError::ValidationError
    );
    assert_eq!(
        s.request_loan(&bob(), request(0, 5, 30), 1).unwrap_err(),
        LoanError::ValidationError
    );
    assert_eq!(
        s.request_loan(&alice(), request(100, 0, 30), 1).unwrap_err(),
        LoanError::ValidationError
    );
    assert!(s.get_loan(1).is_none());
}

#[test]
fn tiny_collateral_allows_nothing() {
    let mut s = service_with_alice();
    assert_eq!(s.calculate_max_loan(1), 0);
    assert_eq!(
        s.request_loan(&alice(), request(1, 1, 30), 1).unwrap_err(),
        LoanError::LtvExceeded { loan_amount: 1, collateral_value: 0 }
    );
}

#[test]
fn repay_at_once_owes_principal_only() {
    let mut s = service_with_alice();
    let loan = s.request_loan(&alice(), request(100_000_000, 1_000_000, 30), 500).unwrap();
    assert_eq!(loan.interest_rate_bps, 800);
    assert_eq!(interest_due(1_000_000, 0), 0);
    assert_eq!(s.repay_loan(&alice(), loan.id, 500).unwrap(), 1_000_000);
}

#[test]
fn repay_after_a_year_owes_eight_percent() {
    let mut s = service_with_alice();
    let loan = s.request_loan(&alice(), request(100_000_000, 1_000_000, 365), 0).unwrap();
    assert_eq!(s.repay_loan(&alice(), loan.id, NANOS_PER_YEAR).unwrap(), 1_080_000);
}

#[test]
fn interest_is_prorated_and_truncated() {
    assert_eq!(interest_due(1_000_000, NANOS_PER_YEAR / 2), 40_000);
    assert_eq!(interest_due(1, NANOS_PER_YEAR), 0);
    assert_eq!(interest_due(u64::MAX, u64::MAX), 862_631_801_964_505_446_362);
}

#[test]
fn due_date_adds_the_duration() {
    let mut s = service_with_alice();
    let loan = s.request_loan(&alice(), request(100_000_000, 10, 30), 1_000).unwrap();
    assert_eq!(loan.created_at, 1_000);
    assert_eq!(loan.due_date, 1_000 + 30 * NANOS_PER_DAY);
    assert_eq!(loan.status, LoanStatus::Active);
    let late = s.request_loan(&alice(), request(100_000_000, 10, u32::MAX), u64::MAX - 5).unwrap();
    assert_eq!(late.due_date, u64::MAX);
}

#[test]
fn second_profile_is_refused() {
    let mut s = LoanService::new();
    let first = s.create_user_profile(alice(), 42).unwrap();
    assert_eq!(first.credit_score, 750);
    assert_eq!(first.total_collateral, 0);
    assert!(first.active_loans.is_empty());
    assert_eq!(s.create_user_profile(alice(), 99).unwrap_err(), LoanError::DuplicateProfile);
    let kept = s.get_user_profile(&alice()).unwrap();
    assert_eq!(kept.created_at, 42);
    assert_eq!(kept.credit_score, 750);
    assert!(s.get_user_profile(&bob()).is_none());
}

#[test]
fn repay_settles_the_loan() {
    let mut s = service_with_alice();
    let a = s.request_loan(&alice(), request(100_000_000, 1_000, 30), 1).unwrap();
    let b = s.request_loan(&alice(), request(20_000_000, 2_000, 30), 1).unwrap();
    let before = s.get_user_profile(&alice()).unwrap();
    assert_eq!(before.total_collateral, 120_000_000);
    assert_eq!(before.active_loans, vec![a.id, b.id]);
    s.repay_loan(&alice(), a.id, 2).unwrap();
    assert_eq!(s.get_loan(a.id).unwrap().status, LoanStatus::Repaid);
    assert_eq!(s.repay_loan(&alice(), a.id, 3).unwrap_err(), LoanError::InvalidState);
    let after = s.get_user_profile(&alice()).unwrap();
    assert_eq!(after.total_collateral, 20_000_000);
    assert_eq!(after.active_loans, vec![b.id]);
}

#[test]
fn stranger_cannot_repay() {
    let mut s = service_with_alice();
    s.create_user_profile(bob(), 3).unwrap();
    let loan = s.request_loan(&alice(), request(100_000_000, 1_000, 30), 1).unwrap();
    assert_eq!(s.repay_loan(&bob(), loan.id, 2).unwrap_err(), LoanError::Unauthorized);
    assert_eq!(s.get_loan(loan.id).unwrap().status, LoanStatus::Active);
    let profile = s.get_user_profile(&alice()).unwrap();
    assert_eq!(profile.active_loans, vec![loan.id]);
    assert_eq!(profile.total_collateral, 100_000_000);
    assert!(s.get_user_profile(&bob()).unwrap().active_loans.is_empty());
}

#[test]
fn unknown_loan_is_not_found() {
    let mut s = service_with_alice();
    assert_eq!(s.repay_loan(&alice(), 0, 1).unwrap_err(), LoanError::NotFound);
    assert_eq!(s.repay_loan(&alice(), 7, 1).unwrap_err(), LoanError::NotFound);
    assert!(s.get_loan(0).is_none());
}

#[test]
fn loan_without_profile_is_refused() {
    let mut s = LoanService::new();
    assert_eq!(
        s.request_loan(&bob(), request(100_000_000, 1_000, 30), 1).unwrap_err(),
        LoanError::ProfileMissing
    );
    assert!(s.get_loan(1).is_none());
}

#[test]
fn price_updates() {
    let mut s = service_with_alice();
    assert_eq!(s.update_btc_price(0, 7).unwrap_err(), LoanError::InvalidPrice);
    assert_eq!(s.get_btc_price().btc_price_cents, 4_500_000);
    s.update_btc_price(9_000_000, 7).unwrap();
    let m = s.get_btc_price();
    assert_eq!(m.btc_price_cents, 9_000_000);
    assert_eq!(m.last_updated, 7);
    assert_eq!(s.calculate_max_loan(100_000_000), 6_300_000);
}

#[test]
fn loans_are_listed_per_borrower() {
    let mut s = service_with_alice();
    s.create_user_profile(bob(), 3).unwrap();
    s.request_loan(&alice(), request(100_000_000, 1, 1), 1).unwrap();
    s.request_loan(&bob(), request(100_000_000, 2, 1), 1).unwrap();
    s.request_loan(&alice(), request(100_000_000, 3, 1), 1).unwrap();
    let ids: Vec<u64> = s.get_user_loans(&alice()).iter().map(|l| l.id).collect();
    assert_eq!(ids, vec![1, 3]);
    let ids: Vec<u64> = s.get_user_loans(&bob()).iter().map(|l| l.id).collect();
    assert_eq!(ids, vec![2]);
}

#[test]
fn identities_compare_by_bytes() {
    assert!(alice().same_as(&Identity::new(vec![1, 2, 3])));
    assert!(!alice().same_as(&bob()));
    assert!(!alice().same_as(&Identity::new(vec![1, 2])));
    assert_eq!(alice().duplicate().bytes, vec![1, 2, 3]);
}

#[test]
fn asset_proof_stand_in() {
    let a = get_bitcoin_address();
    assert_eq!(a.address, "bc1qxy2kgdygjrsqtzq2n0yrf2493p83kkfjhx0wlh");
    assert_eq!(a.network, "testnet");
    let b = get_bitcoin_balance("addr".to_string());
    assert_eq!(b.address, "addr");
    assert_eq!(b.balance_satoshis, 50_000_000);
    assert_eq!(verify_bitcoin_transaction(String::new()), Err(ProofError::InvalidTransactionId));
    assert_eq!(verify_bitcoin_transaction("abc".to_string()), Ok(true));
}
