use nft_ledger::royalty::NonFungibleTokenCore;
use nft_ledger::contract::Contract;
use nft_ledger::error::NftError;
use nft_ledger::royalty::royalty_to_payout;

fn s(x: &str) -> String {
    x.to_string()
}

fn amount_of(payout: &[(String, u128)], who: &str) -> u128 {
    payout.iter().find(|(k, _)| k == who).map(|(_, v)| *v).unwrap()
}

#[test]
fn scenario_royalty_split() {
    let mut c = Contract::new();
    let royalty = vec![(s("r1"), 2000u32), (s("r2"), 1000u32)];
    c.nft_mint(s("t1"), s("{}"), s("owner"), Some(royalty), u128::MAX, 1).unwrap();
    let payout = c.nft_payout(&s("t1"), 1000, 10).unwrap();
    assert_eq!(payout.len(), 3);
    assert_eq!(amount_of(&payout, "r1"), 200);
    assert_eq!(amount_of(&payout, "r2"), 100);
    assert_eq!(amount_of(&payout, "owner"), 700);
}

#[test]
fn payout_rounding_goes_to_nobody_beyond_a_unit_each() {
    let mut c = Contract::new();
    let royalty = vec![(s("r1"), 5000u32)];
    c.nft_mint(s("t1"), s("{}"), s("owner"), Some(royalty), u128::MAX, 1).unwrap();
    let payout = c.nft_payout(&s("t1"), 3, 10).unwrap();
    assert_eq!(amount_of(&payout, "r1"), 1);
    assert_eq!(amount_of(&payout, "owner"), 1);
    let total: u128 = payout.iter().map(|(_, v)| *v).sum();
    assert!(total <= 3 && 3 - total <= 1);
}

#[test]
fn owner_royalty_entry_is_skipped() {
    let mut c = Contract::new();
    let royalty = vec![(s("owner"), 3000u32), (s("r1"), 1000u32)];
    c.nft_mint(s("t1"), s("{}"), s("owner"), Some(royalty), u128::MAX, 1).unwrap();
    let payout = c.nft_payout(&s("t1"), 1000, 10).unwrap();
    assert_eq!(payout, vec![(s("r1"), 100), (s("owner"), 900)]);
}

#[test]
fn payout_caps_recipients() {
    let mut c = Contract::new();
    let royalty = vec![(s("r1"), 2000u32), (s("r2"), 1000u32)];
    c.nft_mint(s("t1"), s("{}"), s("owner"), Some(royalty), u128::MAX, 1).unwrap();
    assert_eq!(c.nft_payout(&s("t1"), 1000, 1), Err(NftError::TooManyRecipients));
    assert_eq!(c.nft_payout(&s("t2"), 1000, 1), Err(NftError::NotFound));
}

#[test]
fn royalty_share_of_huge_amount_does_not_overflow() {
    assert_eq!(royalty_to_payout(10000, u128::MAX), u128::MAX);
    assert_eq!(royalty_to_payout(5000, 1001), 500);
    assert_eq!(royalty_to_payout(0, 1000), 0);
    assert_eq!(royalty_to_payout(2500, u128::MAX), u128::MAX / 4);
}

#[test]
fn transfer_payout_moves_and_splits() {
    let mut c = Contract::new();
    let royalty = vec![(s("r1"), 2000u32)];
    c.nft_mint(s("t1"), s("{}"), s("alice"), Some(royalty), u128::MAX, 1).unwrap();
    let grant = c.nft_approve(&s("t1"), &s("market"), &s("alice"), 1000, 10).unwrap();
    let out = c
        .nft_transfer_payout(&s("market"), &s("bob"), &s("t1"), grant.approval_id, 1000, 5, 10)
        .unwrap();
    assert_eq!(out.previous_owner_id, "alice");
    // "market" takes 6 + 12 bytes
    assert_eq!(out.released, 180);
    assert_eq!(out.payout, vec![(s("r1"), 200), (s("bob"), 800)]);
    assert_eq!(c.nft_token(&s("t1")).unwrap().owner_id, "bob");
}

#[test]
fn transfer_payout_is_all_or_nothing() {
    let mut c = Contract::new();
    let royalty = vec![(s("r1"), 2000u32), (s("r2"), 1000u32)];
    c.nft_mint(s("t1"), s("{}"), s("alice"), Some(royalty), u128::MAX, 1).unwrap();
    let grant = c.nft_approve(&s("t1"), &s("market"), &s("alice"), 1000, 10).unwrap();
    let r = c.nft_transfer_payout(&s("market"), &s("bob"), &s("t1"), grant.approval_id, 1000, 1, 10);
    assert_eq!(r.err(), Some(NftError::TooManyRecipients));
    assert_eq!(c.nft_token(&s("t1")).unwrap().owner_id, "alice");
    assert_eq!(c.nft_is_approved(&s("t1"), &s("market"), Some(0)), Ok(true));
    let r = c.nft_transfer_payout(&s("market"), &s("bob"), &s("t1"), 7, 1000, 5, 10);
    assert_eq!(r.err(), Some(NftError::ApprovalMismatch));
}

#[test]
fn payout_interface_matches_the_ledger() {
    let mut c = Contract::new();
    let royalty = vec![(s("r1"), 2000u32), (s("r2"), 1000u32)];
    c.nft_mint(s("t1"), s("{}"), s("owner"), Some(royalty), u128::MAX, 1).unwrap();
    let payout = <Contract as NonFungibleTokenCore>::nft_payout(&c, &s("t1"), 1000, 10).unwrap();
    assert_eq!(payout, vec![(s("r1"), 200), (s("r2"), 100), (s("owner"), 700)]);
}
