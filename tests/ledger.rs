use nft_ledger::approval::NonFungibleTokenCore;
use nft_ledger::contract::Contract;
use nft_ledger::error::NftError;

fn s(x: &str) -> String {
    x.to_string()
}

const BYTE_COST: u128 = 10;

fn mint_plain(c: &mut Contract, token: &str, owner: &str) {
    c.nft_mint(s(token), s("{}"), s(owner), None, u128::MAX, BYTE_COST).unwrap();
}

#[test]
fn scenario_mint_approve_transfer() {
    let mut c = Contract::new();
    mint_plain(&mut c, "t1", "alice");
    assert_eq!(c.nft_supply_for_owner(&s("alice")), 1);

    let grant = c.nft_approve(&s("t1"), &s("bob"), &s("alice"), 1000, BYTE_COST).unwrap();
    assert_eq!(grant.approval_id, 0);
    assert_eq!(grant.owner_id, "alice");
    assert_eq!(c.nft_is_approved(&s("t1"), &s("bob"), Some(0)), Ok(true));
    assert_eq!(c.nft_is_approved(&s("t1"), &s("bob"), Some(1)), Ok(false));

    let previous = c.internal_transfer(&s("bob"), &s("carol"), &s("t1"), Some(0)).unwrap();
    assert_eq!(previous.owner_id, "alice");
    let token = c.nft_token(&s("t1")).unwrap();
    assert_eq!(token.owner_id, "carol");
    assert!(token.approved_account_ids.is_empty());
    assert_eq!(c.nft_supply_for_owner(&s("alice")), 0);
    assert_eq!(c.nft_supply_for_owner(&s("carol")), 1);

    let grant = c.nft_approve(&s("t1"), &s("bob"), &s("carol"), 1000, BYTE_COST).unwrap();
    assert_eq!(grant.approval_id, 1);
    let stale = c.internal_transfer(&s("bob"), &s("dave"), &s("t1"), Some(0));
    assert_eq!(stale.err(), Some(NftError::ApprovalMismatch));
    assert_eq!(c.nft_token(&s("t1")).unwrap().owner_id, "carol");
}

#[test]
fn mint_twice_is_refused() {
    let mut c = Contract::new();
    mint_plain(&mut c, "t1", "alice");
    let r = c.nft_mint(s("t1"), s("{}"), s("bob"), None, u128::MAX, BYTE_COST);
    assert_eq!(r, Err(NftError::AlreadyExists));
    assert_eq!(c.nft_total_supply(), 1);
}

#[test]
fn mint_charges_storage_exactly() {
    let mut c = Contract::new();
    // 3 * (2 + 4) + (5 + 4) + 8 + 2 * 4 + 0 + (2 + 4) = 49 bytes
    let refund = c.nft_mint(s("t1"), s("{}"), s("alice"), None, 1000, BYTE_COST).unwrap();
    assert_eq!(refund, 1000 - 490);
    let r = c.nft_mint(s("t2"), s("{}"), s("alice"), None, 489, BYTE_COST);
    assert_eq!(r, Err(NftError::InsufficientPayment));
    assert_eq!(c.nft_total_supply(), 1);
}

#[test]
fn mint_with_royalty_counts_its_entries() {
    let mut c = Contract::new();
    let royalty = vec![(s("r1"), 2000u32)];
    // 49 bytes as above, plus 2 + 4 + 4 for the royalty entry
    let refund = c.nft_mint(s("t1"), s("{}"), s("alice"), Some(royalty), 1000, BYTE_COST).unwrap();
    assert_eq!(refund, 1000 - 590);
}

#[test]
fn mint_rejects_bad_royalties() {
    let mut c = Contract::new();
    let seven: Vec<(String, u32)> = (0..7).map(|i| (format!("r{}", i), 10u32)).collect();
    assert_eq!(
        c.nft_mint(s("t1"), s("{}"), s("alice"), Some(seven), u128::MAX, BYTE_COST),
        Err(NftError::TooManyRecipients)
    );
    let twice = vec![(s("r1"), 10u32), (s("r1"), 20u32)];
    assert_eq!(
        c.nft_mint(s("t1"), s("{}"), s("alice"), Some(twice), u128::MAX, BYTE_COST),
        Err(NftError::InvalidRoyalty)
    );
    let too_much = vec![(s("r1"), 6000u32), (s("r2"), 4001u32)];
    assert_eq!(
        c.nft_mint(s("t1"), s("{}"), s("alice"), Some(too_much), u128::MAX, BYTE_COST),
        Err(NftError::InvalidRoyalty)
    );
    let six: Vec<(String, u32)> = (0..6).map(|i| (format!("r{}", i), 100u32)).collect();
    assert!(c.nft_mint(s("t1"), s("{}"), s("alice"), Some(six), u128::MAX, BYTE_COST).is_ok());
}

#[test]
fn unknown_token_is_not_found() {
    let mut c = Contract::new();
    assert_eq!(c.nft_is_approved(&s("nope"), &s("bob"), None), Err(NftError::NotFound));
    assert_eq!(
        c.internal_transfer(&s("alice"), &s("bob"), &s("nope"), None).err(),
        Some(NftError::NotFound)
    );
    assert!(c.nft_token(&s("nope")).is_none());
    assert_eq!(c.nft_revoke(&s("nope"), &s("bob"), &s("alice"), BYTE_COST), Err(NftError::NotFound));
}

#[test]
fn only_owner_may_approve_or_revoke() {
    let mut c = Contract::new();
    mint_plain(&mut c, "t1", "alice");
    assert_eq!(
        c.nft_approve(&s("t1"), &s("bob"), &s("mallory"), 1000, BYTE_COST).err(),
        Some(NftError::Unauthorized)
    );
    assert_eq!(c.nft_revoke(&s("t1"), &s("bob"), &s("mallory"), BYTE_COST), Err(NftError::Unauthorized));
    assert_eq!(c.nft_revoke_all(&s("t1"), &s("mallory"), BYTE_COST), Err(NftError::Unauthorized));
}

#[test]
fn approve_needs_a_deposit_that_covers_the_entry() {
    let mut c = Contract::new();
    mint_plain(&mut c, "t1", "alice");
    assert_eq!(
        c.nft_approve(&s("t1"), &s("bob"), &s("alice"), 0, BYTE_COST).err(),
        Some(NftError::InsufficientPayment)
    );
    // "bob" takes 3 + 4 + 8 = 15 bytes
    assert_eq!(
        c.nft_approve(&s("t1"), &s("bob"), &s("alice"), 149, BYTE_COST).err(),
        Some(NftError::InsufficientPayment)
    );
    let grant = c.nft_approve(&s("t1"), &s("bob"), &s("alice"), 200, BYTE_COST).unwrap();
    assert_eq!(grant.refund, 50);
    // re-approving a listed delegate costs no storage, yet issues a new id
    let again = c.nft_approve(&s("t1"), &s("bob"), &s("alice"), 1, BYTE_COST).unwrap();
    assert_eq!(again.refund, 1);
    assert_eq!(again.approval_id, 1);
    assert_eq!(c.nft_is_approved(&s("t1"), &s("bob"), Some(0)), Ok(false));
    assert_eq!(c.nft_is_approved(&s("t1"), &s("bob"), Some(1)), Ok(true));
}

#[test]
fn unapproved_sender_is_unauthorized() {
    let mut c = Contract::new();
    mint_plain(&mut c, "t1", "alice");
    assert_eq!(
        c.internal_transfer(&s("mallory"), &s("bob"), &s("t1"), None).err(),
        Some(NftError::Unauthorized)
    );
}

#[test]
fn self_transfer_is_refused() {
    let mut c = Contract::new();
    mint_plain(&mut c, "t1", "alice");
    assert_eq!(
        c.internal_transfer(&s("alice"), &s("alice"), &s("t1"), None).err(),
        Some(NftError::SelfTransfer)
    );
}

#[test]
fn owner_transfers_without_an_approval_id() {
    let mut c = Contract::new();
    mint_plain(&mut c, "t1", "alice");
    mint_plain(&mut c, "t2", "alice");
    c.nft_approve(&s("t1"), &s("bob"), &s("alice"), 1000, BYTE_COST).unwrap();
    c.internal_transfer(&s("alice"), &s("bob"), &s("t1"), Some(99)).unwrap();
    assert_eq!(c.nft_supply_for_owner(&s("alice")), 1);
    assert_eq!(c.nft_supply_for_owner(&s("bob")), 1);
    // next approval continues the counter of the token
    let grant = c.nft_approve(&s("t1"), &s("carol"), &s("bob"), 1000, BYTE_COST).unwrap();
    assert_eq!(grant.approval_id, 1);
}

#[test]
fn delegate_without_id_may_transfer() {
    let mut c = Contract::new();
    mint_plain(&mut c, "t1", "alice");
    c.nft_approve(&s("t1"), &s("bob"), &s("alice"), 1000, BYTE_COST).unwrap();
    c.internal_transfer(&s("bob"), &s("bob"), &s("t1"), None).err();
    let prev = c.internal_transfer(&s("bob"), &s("carol"), &s("t1"), None).unwrap();
    assert_eq!(prev.approved_account_ids.len(), 1);
    assert_eq!(c.nft_supply_for_owner(&s("alice")), 0);
    assert_eq!(c.nft_supply_for_owner(&s("carol")), 1);
}

#[test]
fn revoke_releases_the_entry() {
    let mut c = Contract::new();
    mint_plain(&mut c, "t1", "alice");
    c.nft_approve(&s("t1"), &s("bob"), &s("alice"), 1000, BYTE_COST).unwrap();
    assert_eq!(c.nft_revoke(&s("t1"), &s("bob"), &s("alice"), BYTE_COST), Ok(150));
    assert_eq!(c.nft_is_approved(&s("t1"), &s("bob"), None), Ok(false));
    // revoking an absent delegate is a no-op that releases nothing
    assert_eq!(c.nft_revoke(&s("t1"), &s("bob"), &s("alice"), BYTE_COST), Ok(0));
}

#[test]
fn revoke_all_releases_every_entry() {
    let mut c = Contract::new();
    mint_plain(&mut c, "t1", "alice");
    c.nft_approve(&s("t1"), &s("bob"), &s("alice"), 1000, BYTE_COST).unwrap();
    c.nft_approve(&s("t1"), &s("carol"), &s("alice"), 1000, BYTE_COST).unwrap();
    // (3 + 12) + (5 + 12) bytes
    assert_eq!(c.nft_revoke_all(&s("t1"), &s("alice"), BYTE_COST), Ok(320));
    assert_eq!(c.nft_is_approved(&s("t1"), &s("bob"), None), Ok(false));
    assert_eq!(c.nft_is_approved(&s("t1"), &s("carol"), None), Ok(false));
    assert_eq!(c.nft_revoke_all(&s("t1"), &s("alice"), BYTE_COST), Ok(0));
    let grant = c.nft_approve(&s("t1"), &s("dave"), &s("alice"), 1000, BYTE_COST).unwrap();
    assert_eq!(grant.approval_id, 2);
}

#[test]
fn ownership_index_follows_transfers() {
    let mut c = Contract::new();
    for t in ["a", "b", "c"] {
        mint_plain(&mut c, t, "alice");
    }
    c.internal_transfer(&s("alice"), &s("bob"), &s("b"), None).unwrap();
    assert_eq!(c.nft_supply_for_owner(&s("alice")), 2);
    assert_eq!(c.nft_supply_for_owner(&s("bob")), 1);
    let mine: Vec<String> = c
        .nft_tokens_for_owner(&s("alice"), None, Some(10))
        .into_iter()
        .map(|j| j.token_id)
        .collect();
    assert_eq!(mine, vec![s("a"), s("c")]);
    let bobs = c.nft_tokens_for_owner(&s("bob"), None, Some(10));
    assert_eq!(bobs.len(), 1);
    assert_eq!(bobs[0].owner_id, "bob");
    assert!(c.nft_tokens_for_owner(&s("nobody"), None, Some(10)).is_empty());
}

#[test]
fn pagination_over_all_tokens() {
    let mut c = Contract::new();
    for t in ["a", "b", "c", "d"] {
        mint_plain(&mut c, t, "alice");
    }
    assert_eq!(c.nft_total_supply(), 4);
    let page: Vec<String> = c.nft_tokens(Some(1), Some(2)).into_iter().map(|j| j.token_id).collect();
    assert_eq!(page, vec![s("b"), s("c")]);
    assert!(c.nft_tokens(None, None).is_empty());
    assert_eq!(c.nft_tokens(Some(3), Some(10)).len(), 1);
    assert!(c.nft_tokens(Some(9), Some(10)).is_empty());
    assert_eq!(c.nft_tokens_for_owner(&s("alice"), Some(2), Some(5)).len(), 2);
}

#[test]
fn approval_interface_matches_the_ledger() {
    let mut c = Contract::new();
    mint_plain(&mut c, "t1", "alice");
    let grant = <Contract as NonFungibleTokenCore>::nft_approve(&mut c, &s("t1"), &s("bob"), &s("alice"), 1000, BYTE_COST)
        .unwrap();
    assert_eq!(grant.approval_id, 0);
    assert_eq!(<Contract as NonFungibleTokenCore>::nft_is_approved(&c, &s("t1"), &s("bob"), Some(0)), Ok(true));
    assert_eq!(c.next_approval_id(&s("t1")), Some(1));
    assert_eq!(c.next_approval_id(&s("t9")), None);
    assert_eq!(<Contract as NonFungibleTokenCore>::nft_revoke_all(&mut c, &s("t1"), &s("alice"), BYTE_COST), Ok(150));
}

#[test]
fn minted_token_shows_its_fields() {
    let mut c = Contract::new();
    let royalty = vec![(s("r1"), 2000u32)];
    c.nft_mint(s("t1"), s("{\"title\":\"x\"}"), s("alice"), Some(royalty), u128::MAX, 1).unwrap();
    let token = c.nft_token(&s("t1")).unwrap();
    assert_eq!(token.token_id, "t1");
    assert_eq!(token.owner_id, "alice");
    assert_eq!(token.metadata, "{\"title\":\"x\"}");
    assert_eq!(token.royalty, vec![(s("r1"), 2000u32)]);
    assert!(token.approved_account_ids.is_empty());
    assert_eq!(c.next_approval_id(&s("t1")), Some(0));
}

#[test]
fn owner_cannot_approve_itself() {
    let mut c = Contract::new();
    mint_plain(&mut c, "t1", "alice");
    assert_eq!(
        c.nft_approve(&s("t1"), &s("alice"), &s("alice"), 1000, BYTE_COST).err(),
        Some(NftError::SelfApproval)
    );
    assert_eq!(c.nft_is_approved(&s("t1"), &s("alice"), None), Ok(false));
    assert_eq!(c.next_approval_id(&s("t1")), Some(0));
}

#[test]
fn approve_then_revoke_returns_the_whole_deposit() {
    let mut c = Contract::new();
    mint_plain(&mut c, "t1", "alice");
    let grant = c.nft_approve(&s("t1"), &s("bob"), &s("alice"), 1000, BYTE_COST).unwrap();
    let released = c.nft_revoke(&s("t1"), &s("bob"), &s("alice"), BYTE_COST).unwrap();
    assert_eq!(grant.refund + released, 1000);
}
