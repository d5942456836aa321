use nft_ledger::error::NftError;
use nft_ledger::storage::{
    bytes_for_approved_account_id, charge, is_at_least_one_yocto, is_one_yocto,
    refund_approved_account_ids, refund_worth_sending, release,
};

#[test]
fn approval_entry_bytes() {
    assert_eq!(bytes_for_approved_account_id("bob"), 15);
    assert_eq!(bytes_for_approved_account_id(""), 12);
    // two bytes of UTF-8 for the accented letter
    assert_eq!(bytes_for_approved_account_id("é"), 14);
}

#[test]
fn charge_and_release_round_trip() {
    let refund = charge(15, 1000, 10).unwrap();
    assert_eq!(refund, 850);
    let back = release(15, 10);
    assert_eq!(back, 150);
    assert_eq!(refund + back, 1000);
}

#[test]
fn charge_exact_and_short() {
    assert_eq!(charge(15, 150, 10), Ok(0));
    assert_eq!(charge(15, 149, 10), Err(NftError::InsufficientPayment));
    assert_eq!(charge(u128::MAX, u128::MAX, 2), Err(NftError::InsufficientPayment));
}

#[test]
fn release_saturates() {
    assert_eq!(release(u128::MAX, 2), u128::MAX);
    assert_eq!(release(u128::MAX, 0), 0);
}

#[test]
fn release_of_many_entries() {
    let approvals = vec![("bob".to_string(), 0u64), ("carol".to_string(), 1u64)];
    assert_eq!(refund_approved_account_ids(&approvals, 10), 320);
    assert_eq!(refund_approved_account_ids(&Vec::new(), 10), 0);
}

#[test]
fn dust_and_deposit_checks() {
    assert!(!refund_worth_sending(1));
    assert!(refund_worth_sending(2));
    assert!(is_one_yocto(1));
    assert!(!is_one_yocto(2));
    assert!(is_at_least_one_yocto(5));
    assert!(!is_at_least_one_yocto(0));
}
