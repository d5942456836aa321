use vstd::prelude::*;

use crate::assoc::{
    find_key, has_key, keys_unique, lemma_assoc_index, lemma_assoc_push, lemma_assoc_remove,
    lemma_assoc_update, pairs_view,
};
use crate::contract::Contract;
use crate::error::NftError;
use crate::storage::{
    approval_entries_bytes, approval_entry_bytes, approval_keys, bytes_for_approved_account_id,
    cap_u128, charge, refund_approved_account_ids, release, storage_cost,
};
use crate::token::{copy_entries, Token, TokenView};

verus! {

/// What a granted approval hands back.
pub struct ApprovalGrant {
    /// The id of the new approval.
    pub approval_id: u64,
    /// The owner of the token, who granted it.
    pub owner_id: String,
    /// Change owed to the owner after paying for the entry's storage.
    pub refund: u128,
}

/// `token` with `account_id` approved under the id `token.next_approval_id`,
/// and the counter moved on.
pub open spec fn approved_token(token: TokenView, account_id: Seq<char>) -> TokenView {
    TokenView {
        approvals: token.approvals.insert(account_id, token.next_approval_id),
        next_approval_id: (token.next_approval_id + 1) as u64,
        ..token
    }
}

/// `token` with its approvals replaced by `approvals`.
pub open spec fn revoked_token(token: TokenView, approvals: Map<Seq<char>, u64>) -> TokenView {
    TokenView { approvals, ..token }
}

/// Storage that approving `account_id` on `token` adds: one entry for a new
/// delegate, none for one already listed.
pub open spec fn approval_bytes_added(token: TokenView, account_id: Seq<char>) -> nat {
    if token.approvals.dom().contains(account_id) {
        0
    } else {
        approval_entry_bytes(account_id)
    }
}

/// Whether `token` lists `account_id` as a delegate, under `approval_id` if
/// one is given.
pub open spec fn approved(token: TokenView, account_id: Seq<char>, approval_id: Option<u64>) -> bool {
    &&& token.approvals.dom().contains(account_id)
    &&& (approval_id matches Some(id) ==> id == token.approvals[account_id])
}

/// The approval operations of a token ledger, for callers that hold it
/// through this interface; the ledger's own methods of the same names state
/// their effects in full.
pub trait NonFungibleTokenCore: Sized {
    /// The ledger's invariant.
    spec fn ledger_wf(&self) -> bool;

    /// Whether an approval of `token_id` can still be issued an id.
    spec fn can_issue_approval(&self, token_id: Seq<char>) -> bool;

    /// What asking whether `account_id` is approved on `token_id` answers.
    spec fn approval_status(
        &self,
        token_id: Seq<char>,
        account_id: Seq<char>,
        approval_id: Option<u64>,
    ) -> Result<bool, NftError>;

    /// How approving `account_id` on `token_id` relates the ledger before,
    /// the ledger `after` and the result `r`.
    spec fn approve_effect(
        &self,
        after: Self,
        token_id: Seq<char>,
        account_id: Seq<char>,
        caller_id: Seq<char>,
        attached_deposit: u128,
        byte_cost: u128,
        r: Result<ApprovalGrant, NftError>,
    ) -> bool;

    /// How revoking `account_id` on `token_id` relates the ledger before, the
    /// ledger `after` and the result `r`.
    spec fn revoke_effect(
        &self,
        after: Self,
        token_id: Seq<char>,
        account_id: Seq<char>,
        caller_id: Seq<char>,
        byte_cost: u128,
        r: Result<u128, NftError>,
    ) -> bool;

    /// How revoking every approval on `token_id` relates the ledger before,
    /// the ledger `after` and the result `r`.
    spec fn revoke_all_effect(
        &self,
        after: Self,
        token_id: Seq<char>,
        caller_id: Seq<char>,
        byte_cost: u128,
        r: Result<u128, NftError>,
    ) -> bool;

    fn nft_approve(
        &mut self,
        token_id: &String,
        account_id: &String,
        caller_id: &String,
        attached_deposit: u128,
        byte_cost: u128,
    ) -> (r: Result<ApprovalGrant, NftError>)
        requires
            old(self).ledger_wf(),
            old(self).can_issue_approval(token_id@),
        ensures
            final(self).ledger_wf(),
            old(self).approve_effect(
                *final(self),
                token_id@,
                account_id@,
                caller_id@,
                attached_deposit,
                byte_cost,
                r,
            ),
    ;

    fn nft_is_approved(
        &self,
        token_id: &String,
        approved_account_id: &String,
        approval_id: Option<u64>,
    ) -> (r: Result<bool, NftError>)
        requires
            self.ledger_wf(),
        ensures
            r == self.approval_status(token_id@, approved_account_id@, approval_id),
    ;

    fn nft_revoke(&mut self, token_id: &String, account_id: &String, caller_id: &String, byte_cost: u128) -> (r:
        Result<u128, NftError>)
        requires
            old(self).ledger_wf(),
        ensures
            final(self).ledger_wf(),
            old(self).revoke_effect(*final(self), token_id@, account_id@, caller_id@, byte_cost, r),
    ;

    fn nft_revoke_all(&mut self, token_id: &String, caller_id: &String, byte_cost: u128) -> (r: Result<
        u128,
        NftError,
    >)
        requires
            old(self).ledger_wf(),
        ensures
            final(self).ledger_wf(),
            old(self).revoke_all_effect(*final(self), token_id@, caller_id@, byte_cost, r),
    ;
}

impl NonFungibleTokenCore for Contract {
    open spec fn ledger_wf(&self) -> bool {
        self.wf()
    }

    open spec fn approve_effect(
        &self,
        after: Self,
        token_id: Seq<char>,
        account_id: Seq<char>,
        caller_id: Seq<char>,
        attached_deposit: u128,
        byte_cost: u128,
        r: Result<ApprovalGrant, NftError>,
    ) -> bool {
        approve_outcome(*self, after, token_id, account_id, caller_id, attached_deposit, byte_cost, r)
    }

    open spec fn revoke_effect(
        &self,
        after: Self,
        token_id: Seq<char>,
        account_id: Seq<char>,
        caller_id: Seq<char>,
        byte_cost: u128,
        r: Result<u128, NftError>,
    ) -> bool {
        revoke_outcome(*self, after, token_id, account_id, caller_id, byte_cost, r)
    }

    open spec fn revoke_all_effect(
        &self,
        after: Self,
        token_id: Seq<char>,
        caller_id: Seq<char>,
        byte_cost: u128,
        r: Result<u128, NftError>,
    ) -> bool {
        revoke_all_outcome(*self, after, token_id, caller_id, byte_cost, r)
    }

    open spec fn can_issue_approval(&self, token_id: Seq<char>) -> bool {
        self.ledger().dom().contains(token_id) ==> self.ledger()[token_id].next_approval_id < u64::MAX
    }

    open spec fn approval_status(
        &self,
        token_id: Seq<char>,
        account_id: Seq<char>,
        approval_id: Option<u64>,
    ) -> Result<bool, NftError> {
        if self.ledger().dom().contains(token_id) {
            Ok(approved(self.ledger()[token_id], account_id, approval_id))
        } else {
            Err(NftError::NotFound)
        }
    }

    fn nft_approve(
        &mut self,
        token_id: &String,
        account_id: &String,
        caller_id: &String,
        attached_deposit: u128,
        byte_cost: u128,
    ) -> (r: Result<ApprovalGrant, NftError>) {
        Contract::nft_approve(self, token_id, account_id, caller_id, attached_deposit, byte_cost)
    }

    fn nft_is_approved(
        &self,
        token_id: &String,
        approved_account_id: &String,
        approval_id: Option<u64>,
    ) -> (r: Result<bool, NftError>) {
        Contract::nft_is_approved(self, token_id, approved_account_id, approval_id)
    }

    fn nft_revoke(&mut self, token_id: &String, account_id: &String, caller_id: &String, byte_cost: u128) -> (r:
        Result<u128, NftError>) {
        Contract::nft_revoke(self, token_id, account_id, caller_id, byte_cost)
    }

    fn nft_revoke_all(&mut self, token_id: &String, caller_id: &String, byte_cost: u128) -> (r: Result<
        u128,
        NftError,
    >) {
        Contract::nft_revoke_all(self, token_id, caller_id, byte_cost)
    }
}

/// The relation between the ledger `before` and `after` `Contract::nft_approve` and its result `r`.
pub open spec fn approve_outcome(
    before: Contract,
    after: Contract,
    token_id: Seq<char>,
    account_id: Seq<char>,
    caller_id: Seq<char>,
    attached_deposit: u128,
    byte_cost: u128,
    r: Result<ApprovalGrant, NftError>,
) -> bool {
    &&& r is Err ==> after == before
    &&& attached_deposit < 1 ==> r == Err::<ApprovalGrant, NftError>(
        NftError::InsufficientPayment,
    )
    &&& attached_deposit >= 1 && !before.ledger().dom().contains(token_id) ==> r == Err::<
        ApprovalGrant,
        NftError,
    >(NftError::NotFound)
    &&& ({
        let token = before.ledger()[token_id];
        let cost = storage_cost(
            approval_bytes_added(token, account_id) as int,
            byte_cost as int,
        );
        attached_deposit >= 1 && before.ledger().dom().contains(token_id) ==> {
            &&& caller_id != token.owner_id ==> r == Err::<ApprovalGrant, NftError>(
                NftError::Unauthorized,
            )
            &&& caller_id == token.owner_id && account_id == token.owner_id ==> r == Err::<
                ApprovalGrant,
                NftError,
            >(NftError::SelfApproval)
            &&& caller_id == token.owner_id && account_id != token.owner_id
                && attached_deposit < cost ==> r == Err::<
                ApprovalGrant,
                NftError,
            >(NftError::InsufficientPayment)
            &&& caller_id == token.owner_id && account_id != token.owner_id
                && attached_deposit >= cost ==> r is Ok
            &&& r matches Ok(grant) ==> {
                &&& grant.approval_id == token.next_approval_id
                &&& grant.owner_id@ == token.owner_id
                &&& grant.refund == attached_deposit - cost
                &&& after.ledger() == before.ledger().insert(
                    token_id,
                    approved_token(token, account_id),
                )
                &&& after.owner_index() == before.owner_index()
            }
        }
    })
}

/// The relation between the ledger `before` and `after` `Contract::nft_revoke` and its result `r`.
pub open spec fn revoke_outcome(
    before: Contract,
    after: Contract,
    token_id: Seq<char>,
    account_id: Seq<char>,
    caller_id: Seq<char>,
    byte_cost: u128,
    r: Result<u128, NftError>,
) -> bool {
    &&& r is Err ==> after == before
    &&& !before.ledger().dom().contains(token_id) ==> r == Err::<u128, NftError>(
        NftError::NotFound,
    )
    &&& ({
        let token = before.ledger()[token_id];
        before.ledger().dom().contains(token_id) ==> {
            &&& caller_id != token.owner_id ==> r == Err::<u128, NftError>(
                NftError::Unauthorized,
            )
            &&& caller_id == token.owner_id ==> r is Ok
            &&& r matches Ok(amount) ==> if token.approvals.dom().contains(account_id) {
                &&& amount == cap_u128(
                    storage_cost(approval_entry_bytes(account_id) as int, byte_cost as int),
                )
                &&& after.ledger() == before.ledger().insert(
                    token_id,
                    revoked_token(token, token.approvals.remove(account_id)),
                )
                &&& after.owner_index() == before.owner_index()
            } else {
                amount == 0 && after == before
            }
        }
    })
}

/// The relation between the ledger `before` and `after` `Contract::nft_revoke_all` and its result `r`.
pub open spec fn revoke_all_outcome(
    before: Contract,
    after: Contract,
    token_id: Seq<char>,
    caller_id: Seq<char>,
    byte_cost: u128,
    r: Result<u128, NftError>,
) -> bool {
    &&& r is Err ==> after == before
    &&& !before.ledger().dom().contains(token_id) ==> r == Err::<u128, NftError>(
        NftError::NotFound,
    )
    &&& ({
        let token = before.ledger()[token_id];
        before.ledger().dom().contains(token_id) ==> {
            &&& caller_id != token.owner_id ==> r == Err::<u128, NftError>(
                NftError::Unauthorized,
            )
            &&& caller_id == token.owner_id ==> r is Ok
            &&& r matches Ok(amount) ==> {
                &&& amount == cap_u128(
                    storage_cost(
                        approval_entries_bytes(
                            approval_keys(before.approval_list(token_id)),
                        ) as int,
                        byte_cost as int,
                    ),
                )
                &&& after.ledger() == before.ledger().insert(
                    token_id,
                    revoked_token(token, Map::empty()),
                )
                &&& after.owner_index() == before.owner_index()
            }
        }
    })
}

impl Contract {
    /// Lets `account_id` transfer `token_id` on behalf of its owner
    /// `caller_id`, under a fresh approval id; the entry's storage is paid from
    /// `attached_deposit` at `byte_cost` per byte.
    pub fn nft_approve(
        &mut self,
        token_id: &String,
        account_id: &String,
        caller_id: &String,
        attached_deposit: u128,
        byte_cost: u128,
    ) -> (r: Result<ApprovalGrant, NftError>)
        requires
            old(self).wf(),
            old(self).ledger().dom().contains(token_id@) ==> old(self).ledger()[token_id@].next_approval_id
                < u64::MAX,
        ensures
            final(self).wf(),
            approve_outcome(*old(self), *final(self), token_id@, account_id@, caller_id@, attached_deposit, byte_cost, r),
    {
        if attached_deposit < 1 {
            return Err(NftError::InsufficientPayment);
        }
        let i = match self.find_token(token_id) {
            None => {
                return Err(NftError::NotFound);
            },
            Some(i) => i,
        };
        let token = &self.tokens_by_id[i].1;
        if *caller_id != token.owner_id {
            return Err(NftError::Unauthorized);
        }
        if *account_id == token.owner_id {
            return Err(NftError::SelfApproval);
        }
        let ghost old_pairs = pairs_view(token.approved_account_ids@);
        let existing = find_key(&token.approved_account_ids, account_id);
        proof {
            if let Some(j) = existing {
                assert(old_pairs[j as int].0 == account_id@);
                lemma_assoc_index(old_pairs, j as int);
            }
        }
        let storage_used: u128 = match existing {
            Some(_) => 0,
            None => bytes_for_approved_account_id(account_id.as_str()),
        };
        let refund = match charge(storage_used, attached_deposit, byte_cost) {
            Err(e) => {
                return Err(e);
            },
            Ok(refund) => refund,
        };
        let approval_id = token.next_approval_id;
        let mut approvals = copy_entries(&token.approved_account_ids);
        match existing {
            Some(j) => {
                approvals.remove(j);
                approvals.insert(j, (account_id.clone(), approval_id));
                proof {
                    assert(pairs_view(approvals@) =~= old_pairs.update(
                        j as int,
                        (old_pairs[j as int].0, approval_id),
                    ));
                    lemma_assoc_update(old_pairs, j as int, approval_id);
                }
            },
            None => {
                approvals.push((account_id.clone(), approval_id));
                proof {
                    assert(pairs_view(approvals@) =~= old_pairs.push((account_id@, approval_id)));
                    lemma_assoc_push(old_pairs, account_id@, approval_id);
                }
            },
        }
        let owner_id = token.owner_id.clone();
        let updated = Token {
            owner_id: token.owner_id.clone(),
            approved_account_ids: approvals,
            next_approval_id: approval_id + 1,
            royalty: copy_entries(&token.royalty),
        };
        proof {
            assert(updated@ == approved_token(self.tokens_by_id@[i as int].1@, account_id@));
        }
        self.replace_token(i, updated);
        Ok(ApprovalGrant { approval_id, owner_id, refund })
    }

    /// The id that the next approval of `token_id` will get, if the token is
    /// in the ledger.
    pub fn next_approval_id(&self, token_id: &String) -> (r: Option<u64>)
        requires
            self.wf(),
        ensures
            !self.ledger().dom().contains(token_id@) ==> r is None,
            self.ledger().dom().contains(token_id@) ==> r == Some(
                self.ledger()[token_id@].next_approval_id,
            ),
    {
        match self.find_token(token_id) {
            None => None,
            Some(i) => Some(self.tokens_by_id[i].1.next_approval_id),
        }
    }

    /// Whether `approved_account_id` may transfer `token_id`, under
    /// `approval_id` if one is given.
    pub fn nft_is_approved(
        &self,
        token_id: &String,
        approved_account_id: &String,
        approval_id: Option<u64>,
    ) -> (r: Result<bool, NftError>)
        requires
            self.wf(),
        ensures
            !self.ledger().dom().contains(token_id@) ==> r == Err::<bool, NftError>(
                NftError::NotFound,
            ),
            self.ledger().dom().contains(token_id@) ==> r == Ok::<bool, NftError>(
                approved(self.ledger()[token_id@], approved_account_id@, approval_id),
            ),
    {
        let i = match self.find_token(token_id) {
            None => {
                return Err(NftError::NotFound);
            },
            Some(i) => i,
        };
        let token = &self.tokens_by_id[i].1;
        let ghost pairs = pairs_view(token.approved_account_ids@);
        match find_key(&token.approved_account_ids, approved_account_id) {
            None => Ok(false),
            Some(j) => {
                proof {
                    assert(pairs[j as int].0 == approved_account_id@);
                    lemma_assoc_index(pairs, j as int);
                }
                match approval_id {
                    Some(id) => Ok(id == token.approved_account_ids[j].1),
                    None => Ok(true),
                }
            },
        }
    }

    /// Withdraws the approval of `account_id` on `token_id`, on the request of
    /// the owner `caller_id`; returns what the freed storage is worth at
    /// `byte_cost` per byte, nothing where `account_id` was not approved.
    pub fn nft_revoke(
        &mut self,
        token_id: &String,
        account_id: &String,
        caller_id: &String,
        byte_cost: u128,
    ) -> (r: Result<u128, NftError>)
        requires
            old(self).wf(),
        ensures
            final(self).wf(),
            revoke_outcome(*old(self), *final(self), token_id@, account_id@, caller_id@, byte_cost, r),
    {
        let i = match self.find_token(token_id) {
            None => {
                return Err(NftError::NotFound);
            },
            Some(i) => i,
        };
        let token = &self.tokens_by_id[i].1;
        if *caller_id != token.owner_id {
            return Err(NftError::Unauthorized);
        }
        let ghost old_pairs = pairs_view(token.approved_account_ids@);
        let j = match find_key(&token.approved_account_ids, account_id) {
            None => {
                return Ok(0);
            },
            Some(j) => j,
        };
        proof {
            assert(old_pairs[j as int].0 == account_id@);
            lemma_assoc_index(old_pairs, j as int);
        }
        let mut approvals = copy_entries(&token.approved_account_ids);
        approvals.remove(j);
        proof {
            assert(pairs_view(approvals@) =~= old_pairs.remove(j as int));
            lemma_assoc_remove(old_pairs, j as int);
        }
        let updated = Token {
            owner_id: token.owner_id.clone(),
            approved_account_ids: approvals,
            next_approval_id: token.next_approval_id,
            royalty: copy_entries(&token.royalty),
        };
        let amount = release(bytes_for_approved_account_id(account_id.as_str()), byte_cost);
        proof {
            let tv = self.tokens_by_id@[i as int].1@;
            assert(updated@ == revoked_token(tv, tv.approvals.remove(account_id@)));
        }
        self.replace_token(i, updated);
        Ok(amount)
    }

    /// Withdraws every approval on `token_id`, on the request of the owner
    /// `caller_id`; returns what the freed storage is worth at `byte_cost` per
    /// byte.
    pub fn nft_revoke_all(&mut self, token_id: &String, caller_id: &String, byte_cost: u128) -> (r:
        Result<u128, NftError>)
        requires
            old(self).wf(),
        ensures
            final(self).wf(),
            revoke_all_outcome(*old(self), *final(self), token_id@, caller_id@, byte_cost, r),
    {
        let i = match self.find_token(token_id) {
            None => {
                return Err(NftError::NotFound);
            },
            Some(i) => i,
        };
        let token = &self.tokens_by_id[i].1;
        if *caller_id != token.owner_id {
            return Err(NftError::Unauthorized);
        }
        let amount = refund_approved_account_ids(&token.approved_account_ids, byte_cost);
        let updated = Token {
            owner_id: token.owner_id.clone(),
            approved_account_ids: Vec::new(),
            next_approval_id: token.next_approval_id,
            royalty: copy_entries(&token.royalty),
        };
        proof {
            let tv = self.tokens_by_id@[i as int].1@;
            assert(updated@.approvals =~= Map::<Seq<char>, u64>::empty());
            assert(keys_unique(pairs_view(updated.approved_account_ids@)));
            assert(updated@ == revoked_token(tv, Map::empty()));
        }
        self.replace_token(i, updated);
        Ok(amount)
    }
}

/// A change that the ledger's operations make to one token's entry.
pub enum TokenStep {
    /// The account is approved under the next id.
    Approve(Seq<char>),
    /// The approvals are replaced by the given ones, none added.
    Revoke(Map<Seq<char>, u64>),
    /// The token passes to the account.
    Transfer(Seq<char>),
}

/// The entry after `step`.
pub open spec fn apply_step(token: TokenView, step: TokenStep) -> TokenView {
    match step {
        TokenStep::Approve(account_id) => approved_token(token, account_id),
        TokenStep::Revoke(approvals) => revoked_token(token, approvals),
        TokenStep::Transfer(receiver_id) => crate::transfer::transferred_token(token, receiver_id),
    }
}

/// The entry after `steps`, in order.
pub open spec fn apply_steps(token: TokenView, steps: Seq<TokenStep>) -> TokenView
    decreases steps.len(),
{
    if steps.len() == 0 {
        token
    } else {
        apply_step(apply_steps(token, steps.drop_last()), steps.last())
    }
}

/// The approval ids that `steps` hand out, in order.
pub open spec fn issued_ids(token: TokenView, steps: Seq<TokenStep>) -> Seq<u64>
    decreases steps.len(),
{
    if steps.len() == 0 {
        Seq::empty()
    } else if steps.last() is Approve {
        issued_ids(token, steps.drop_last()).push(
            apply_steps(token, steps.drop_last()).next_approval_id,
        )
    } else {
        issued_ids(token, steps.drop_last())
    }
}

/// Approval ids only grow: along any run of approvals, revocations and
/// transfers of a token, each id handed out is greater than every id handed
/// out before it, and the counter stays above all of them.
pub proof fn lemma_approval_ids_increase(token: TokenView, steps: Seq<TokenStep>)
    requires
        token.next_approval_id + steps.len() <= u64::MAX,
    ensures
        forall|i: int, j: int|
            0 <= i < j < issued_ids(token, steps).len() ==> issued_ids(token, steps)[i]
                < issued_ids(token, steps)[j],
        forall|i: int|
            0 <= i < issued_ids(token, steps).len() ==> token.next_approval_id <= #[trigger] issued_ids(
                token,
                steps,
            )[i] < apply_steps(token, steps).next_approval_id,
        token.next_approval_id <= apply_steps(token, steps).next_approval_id
            <= token.next_approval_id + steps.len(),
    decreases steps.len(),
{
    if steps.len() > 0 {
        let prefix = steps.drop_last();
        lemma_approval_ids_increase(token, prefix);
        let before = apply_steps(token, prefix);
        let ids = issued_ids(token, prefix);
        if steps.last() is Approve {
            let all = ids.push(before.next_approval_id);
            assert(issued_ids(token, steps) == all);
            assert forall|i: int, j: int| 0 <= i < j < all.len() implies all[i] < all[j] by {
                if j < ids.len() {
                    assert(all[i] == ids[i] && all[j] == ids[j]);
                } else {
                    assert(all[i] == ids[i]);
                }
            }
            assert forall|i: int| 0 <= i < all.len() implies token.next_approval_id <= #[trigger] all[i]
                < apply_steps(token, steps).next_approval_id by {
                if i < ids.len() {
                    assert(all[i] == ids[i]);
                }
            }
        }
    }
}

/// Every approval id stored on a token of a well-formed ledger was issued
/// before the token's counter, so the next id handed out is greater than all
/// of them.
pub proof fn lemma_stored_ids_below_counter(contract: Contract, token_id: Seq<char>, account_id: Seq<char>)
    requires
        contract.wf(),
        contract.ledger().dom().contains(token_id),
        contract.ledger()[token_id].approvals.dom().contains(account_id),
    ensures
        contract.ledger()[token_id].approvals[account_id] < contract.ledger()[token_id].next_approval_id,
{
    let pairs = crate::contract::ledger_pairs(contract.tokens_by_id@);
    let i = choose|i: int| 0 <= i < pairs.len() && pairs[i].0 == token_id;
    lemma_assoc_index(pairs, i);
    let token = contract.tokens_by_id@[i].1;
    assert(token.wf());
    let approvals = pairs_view(token.approved_account_ids@);
    let j = choose|j: int| 0 <= j < approvals.len() && approvals[j].0 == account_id;
    lemma_assoc_index(approvals, j);
    assert(token.approved_account_ids@[j].1 < token.next_approval_id);
}

/// No token of a well-formed ledger lists its own owner as a delegate.
pub proof fn lemma_owner_never_approved(contract: Contract, token_id: Seq<char>)
    requires
        contract.wf(),
        contract.ledger().dom().contains(token_id),
    ensures
        !contract.ledger()[token_id].approvals.dom().contains(contract.ledger()[token_id].owner_id),
{
    let pairs = crate::contract::ledger_pairs(contract.tokens_by_id@);
    let i = choose|i: int| 0 <= i < pairs.len() && pairs[i].0 == token_id;
    lemma_assoc_index(pairs, i);
    let token = contract.tokens_by_id@[i].1;
    assert(token.wf());
    let approvals = pairs_view(token.approved_account_ids@);
    if has_key(approvals, token.owner_id@) {
        let j = choose|j: int| 0 <= j < approvals.len() && approvals[j].0 == token.owner_id@;
        assert(token.approved_account_ids@[j].0@ != token.owner_id@);
    }
}

/// Approving a new delegate and then revoking it hands the owner back, over
/// both calls, exactly the deposit it attached: the change from the approval
/// plus what the revocation releases.
pub proof fn lemma_approval_storage_round_trip(
    before: Contract,
    approved: Contract,
    after: Contract,
    token_id: Seq<char>,
    account_id: Seq<char>,
    owner_id: Seq<char>,
    attached_deposit: u128,
    byte_cost: u128,
    grant: ApprovalGrant,
    released: u128,
)
    requires
        !before.ledger()[token_id].approvals.dom().contains(account_id),
        approve_outcome(
            before,
            approved,
            token_id,
            account_id,
            owner_id,
            attached_deposit,
            byte_cost,
            Ok(grant),
        ),
        revoke_outcome(approved, after, token_id, account_id, owner_id, byte_cost, Ok(released)),
    ensures
        grant.refund + released == attached_deposit,
        !after.ledger()[token_id].approvals.dom().contains(account_id),
{
    let token = before.ledger()[token_id];
    let cost = storage_cost(approval_bytes_added(token, account_id) as int, byte_cost as int);
    assert(before.ledger().dom().contains(token_id));
    assert(attached_deposit >= cost);
    assert(approved.ledger()[token_id] == approved_token(token, account_id));
    assert(approved.ledger()[token_id].approvals.dom().contains(account_id));
}

} // verus!
