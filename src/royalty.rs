use vstd::prelude::*;
use vstd::arithmetic::div_mod::{lemma_fundamental_div_mod, lemma_hoist_over_denominator};

use crate::assoc::pairs_view;
use crate::contract::{index_with, index_without, Contract};
use crate::error::NftError;
use crate::storage::{
    approval_entries_bytes, approval_keys, cap_u128, refund_approved_account_ids, storage_cost,
};
use crate::token::{
    authorize_transfer, royalty_valid, shares_total, FULL_SHARE_BASIS_POINTS,
};
use crate::transfer::{transfer_check, transferred_token};

verus! {

/// Sum of the shares of the royalty entries of recipients other than `owner`.
pub open spec fn non_owner_shares(royalty: Seq<(Seq<char>, u32)>, owner: Seq<char>) -> nat
    decreases royalty.len(),
{
    if royalty.len() == 0 {
        0
    } else if royalty.last().0 == owner {
        non_owner_shares(royalty.drop_last(), owner)
    } else {
        non_owner_shares(royalty.drop_last(), owner) + royalty.last().1 as nat
    }
}

/// Number of royalty entries of recipients other than `owner`.
pub open spec fn non_owner_count(royalty: Seq<(Seq<char>, u32)>, owner: Seq<char>) -> nat
    decreases royalty.len(),
{
    if royalty.len() == 0 {
        0
    } else if royalty.last().0 == owner {
        non_owner_count(royalty.drop_last(), owner)
    } else {
        non_owner_count(royalty.drop_last(), owner) + 1
    }
}

/// Part of `balance` that a share of `basis_points` is worth, rounded down.
pub open spec fn share_of(balance: nat, basis_points: nat) -> nat {
    balance * basis_points / FULL_SHARE_BASIS_POINTS as nat
}

/// What each royalty recipient other than `owner` receives of `balance`, in
/// the order of the royalty entries.
pub open spec fn royalty_payouts(royalty: Seq<(Seq<char>, u32)>, owner: Seq<char>, balance: nat) -> Seq<
    (Seq<char>, nat),
>
    decreases royalty.len(),
{
    if royalty.len() == 0 {
        Seq::empty()
    } else if royalty.last().0 == owner {
        royalty_payouts(royalty.drop_last(), owner, balance)
    } else {
        royalty_payouts(royalty.drop_last(), owner, balance).push(
            (royalty.last().0, share_of(balance, royalty.last().1 as nat)),
        )
    }
}

/// The split of `balance`: the royalty recipients other than `owner`, then
/// `owner` with the share that is left.
pub open spec fn payout_split(royalty: Seq<(Seq<char>, u32)>, owner: Seq<char>, balance: nat) -> Seq<
    (Seq<char>, nat),
> {
    royalty_payouts(royalty, owner, balance).push(
        (
            owner,
            share_of(
                balance,
                (FULL_SHARE_BASIS_POINTS - non_owner_shares(royalty, owner)) as nat,
            ),
        ),
    )
}

/// Sum of the amounts of `payout`.
pub open spec fn amounts_total(payout: Seq<(Seq<char>, nat)>) -> nat
    decreases payout.len(),
{
    if payout.len() == 0 {
        0
    } else {
        amounts_total(payout.drop_last()) + payout.last().1
    }
}

/// Payout entries with each recipient viewed as a character sequence.
pub open spec fn payout_view(payout: Seq<(String, u128)>) -> Seq<(Seq<char>, nat)> {
    payout.map_values(|p: (String, u128)| (p.0@, p.1 as nat))
}

pub proof fn lemma_non_owner_shares_bounded(royalty: Seq<(Seq<char>, u32)>, owner: Seq<char>)
    ensures
        non_owner_shares(royalty, owner) <= shares_total(royalty),
        non_owner_count(royalty, owner) <= royalty.len(),
    decreases royalty.len(),
{
    if royalty.len() > 0 {
        lemma_non_owner_shares_bounded(royalty.drop_last(), owner);
    }
}

pub proof fn lemma_shares_total_prefix(royalty: Seq<(Seq<char>, u32)>, i: int)
    requires
        0 <= i <= royalty.len(),
    ensures
        shares_total(royalty.subrange(0, i)) <= shares_total(royalty),
    decreases royalty.len(),
{
    if i < royalty.len() {
        assert(royalty.drop_last().subrange(0, i) =~= royalty.subrange(0, i));
        lemma_shares_total_prefix(royalty.drop_last(), i);
    } else {
        assert(royalty.subrange(0, i) =~= royalty);
    }
}

/// The royalty shares, each rounded down, neither exceed what their basis
/// points are worth nor fall short of it by a unit or more each.
pub proof fn lemma_royalty_payouts_rounding(
    royalty: Seq<(Seq<char>, u32)>,
    owner: Seq<char>,
    balance: nat,
)
    ensures
        10000 * amounts_total(royalty_payouts(royalty, owner, balance)) <= balance
            * non_owner_shares(royalty, owner),
        balance * non_owner_shares(royalty, owner) - 10000 * amounts_total(
            royalty_payouts(royalty, owner, balance),
        ) <= 9999 * non_owner_count(royalty, owner),
    decreases royalty.len(),
{
    if royalty.len() > 0 {
        let rest = royalty.drop_last();
        lemma_royalty_payouts_rounding(rest, owner, balance);
        if royalty.last().0 != owner {
            let p = royalty.last().1 as nat;
            let f = share_of(balance, p);
            let prev = royalty_payouts(rest, owner, balance);
            let next = prev.push((royalty.last().0, f));
            assert(next.drop_last() =~= prev);
            lemma_fundamental_div_mod((balance * p) as int, 10000);
            assert(balance * (non_owner_shares(rest, owner) + p) == balance * non_owner_shares(
                rest,
                owner,
            ) + balance * p) by (nonlinear_arith);
            assert(amounts_total(next) == amounts_total(prev) + f);
            assert(non_owner_shares(royalty, owner) == non_owner_shares(rest, owner) + p);
            assert(non_owner_count(royalty, owner) == non_owner_count(rest, owner) + 1);
            assert(10000 * f <= balance * p);
            assert(balance * p - 10000 * f <= 9999);
            assert(10000 * (amounts_total(prev) + f) == 10000 * amounts_total(prev) + 10000 * f);
            let pr = non_owner_shares(rest, owner);
            let ar = amounts_total(prev);
            let nr = non_owner_count(rest, owner);
            assert(balance * (pr + p) - 10000 * (ar + f) <= 9999 * (nr + 1)) by (nonlinear_arith)
                requires
                    balance * pr - 10000 * ar <= 9999 * nr,
                    balance * p - 10000 * f <= 9999,
            ;
            assert(10000 * (ar + f) <= balance * (pr + p)) by (nonlinear_arith)
                requires
                    10000 * ar <= balance * pr,
                    10000 * f <= balance * p,
            ;
            assert(royalty_payouts(royalty, owner, balance) == next);
            assert(balance * non_owner_shares(royalty, owner) == balance * (pr + p));
        } else {
            assert(royalty_payouts(royalty, owner, balance) == royalty_payouts(rest, owner, balance));
            assert(non_owner_shares(royalty, owner) == non_owner_shares(rest, owner));
            assert(non_owner_count(royalty, owner) == non_owner_count(rest, owner));
        }
    } else {
        assert(non_owner_shares(royalty, owner) == 0);
        assert(balance * non_owner_shares(royalty, owner) == 0) by (nonlinear_arith)
            requires
                non_owner_shares(royalty, owner) == 0,
        ;
        assert(amounts_total(royalty_payouts(royalty, owner, balance)) == 0);
    }
}

/// The split of a sale hands out no more than the sale amount; what rounding
/// keeps back is at most a unit for each royalty recipient; and the owner
/// receives the share of the basis points the other recipients leave, rounded
/// down.
pub proof fn lemma_payout_conservation(royalty: Seq<(Seq<char>, u32)>, owner: Seq<char>, balance: nat)
    requires
        royalty_valid(royalty),
    ensures
        amounts_total(payout_split(royalty, owner, balance)) <= balance,
        balance - amounts_total(payout_split(royalty, owner, balance)) <= royalty.len(),
        payout_split(royalty, owner, balance).last() == (
            owner,
            share_of(balance, (FULL_SHARE_BASIS_POINTS - non_owner_shares(royalty, owner)) as nat),
        ),
{
    let split = payout_split(royalty, owner, balance);
    let others = royalty_payouts(royalty, owner, balance);
    assert(split.drop_last() =~= others);
    lemma_royalty_payouts_rounding(royalty, owner, balance);
    lemma_non_owner_shares_bounded(royalty, owner);
    let p = non_owner_shares(royalty, owner);
    let n = non_owner_count(royalty, owner);
    let rest = (10000 - p) as nat;
    lemma_fundamental_div_mod((balance * rest) as int, 10000);
    let a = amounts_total(others);
    let f = share_of(balance, rest);
    assert(balance * p + balance * rest == balance * 10000) by (nonlinear_arith)
        requires
            rest == 10000 - p,
    ;
    assert(a + f <= balance) by (nonlinear_arith)
        requires
            10000 * a <= balance * p,
            10000 * f <= balance * rest,
            balance * p + balance * rest == balance * 10000,
    ;
    assert(balance - (a + f) <= n) by (nonlinear_arith)
        requires
            balance * p - 10000 * a <= 9999 * n,
            balance * rest - 10000 * f < 10000,
            balance * p + balance * rest == balance * 10000,
    ;
}

/// What a share of `royalty_percentage` basis points of `amount_to_pay` is
/// worth, rounded down, computed without overflow.
pub fn royalty_to_payout(royalty_percentage: u32, amount_to_pay: u128) -> (r: u128)
    requires
        royalty_percentage <= FULL_SHARE_BASIS_POINTS,
    ensures
        r == share_of(amount_to_pay as nat, royalty_percentage as nat),
{
    let whole = amount_to_pay / 10000;
    let part = amount_to_pay % 10000;
    let bp = royalty_percentage as u128;
    proof {
        lemma_fundamental_div_mod(amount_to_pay as int, 10000);
        assert(whole * bp <= whole * 10000) by (nonlinear_arith)
            requires
                bp <= 10000,
        ;
        assert(part * bp < 10000 * 10000) by (nonlinear_arith)
            requires
                bp <= 10000,
                part < 10000,
        ;
        lemma_hoist_over_denominator((part * bp) as int, (whole * bp) as int, 10000);
        assert(amount_to_pay * bp == part * bp + (whole * bp) * 10000) by (nonlinear_arith)
            requires
                amount_to_pay == 10000 * whole + part,
        ;
        assert((part * bp) / 10000 <= bp) by (nonlinear_arith)
            requires
                part < 10000,
                bp <= 10000,
        ;
        assert((amount_to_pay * bp) / 10000 <= amount_to_pay) by (nonlinear_arith)
            requires
                bp <= 10000,
        ;
    }
    whole * bp + part * bp / 10000
}

/// The split of `balance` over the royalty of `token`, where it has at most
/// `max_len_payout` entries; the owner receives what the other recipients
/// leave.
pub fn compute_payout(token: &crate::token::Token, balance: u128, max_len_payout: u32) -> (r: Result<
    Vec<(String, u128)>,
    NftError,
>)
    requires
        token.wf(),
    ensures
        token@.royalty.len() > max_len_payout ==> r == Err::<Vec<(String, u128)>, NftError>(
            NftError::TooManyRecipients,
        ),
        token@.royalty.len() <= max_len_payout ==> r is Ok,
        r matches Ok(payout) ==> payout_view(payout@) == payout_split(
            token@.royalty,
            token@.owner_id,
            balance as nat,
        ),
{
    let royalty = &token.royalty;
    let ghost view = pairs_view(royalty@);
    let ghost owner = token.owner_id@;
    if royalty.len() as u64 > max_len_payout as u64 {
        return Err(NftError::TooManyRecipients);
    }
    proof {
        lemma_non_owner_shares_bounded(view, owner);
    }
    let mut payout: Vec<(String, u128)> = Vec::new();
    let mut combined_royalty: u32 = 0;
    let mut i: usize = 0;
    while i < royalty.len()
        invariant
            i <= royalty@.len(),
            view == pairs_view(royalty@),
            owner == token.owner_id@,
            royalty_valid(view),
            combined_royalty == non_owner_shares(view.subrange(0, i as int), owner),
            payout_view(payout@) == royalty_payouts(view.subrange(0, i as int), owner, balance as nat),
        decreases royalty@.len() - i,
    {
        let ghost pre = view.subrange(0, i as int);
        let ghost next = view.subrange(0, i + 1);
        assert(next.drop_last() =~= pre);
        assert(next.last() == view[i as int]);
        proof {
            lemma_non_owner_shares_bounded(next, owner);
            lemma_shares_total_prefix(view, i + 1);
        }
        let (key, share) = (&royalty[i].0, royalty[i].1);
        if *key != token.owner_id {
            let amount = royalty_to_payout(share, balance);
            let ghost before = payout@;
            payout.push((key.clone(), amount));
            assert(payout_view(payout@) =~= payout_view(before).push((key@, amount as nat)));
            combined_royalty = combined_royalty + share;
        }
        i += 1;
    }
    assert(view.subrange(0, i as int) =~= view);
    let ghost before = payout@;
    let amount = royalty_to_payout(FULL_SHARE_BASIS_POINTS - combined_royalty, balance);
    payout.push((token.owner_id.clone(), amount));
    assert(payout_view(payout@) =~= payout_view(before).push((owner, amount as nat)));
    Ok(payout)
}

/// What a sale hands back besides the split: the previous owner and what the
/// storage of the cleared approvals is worth to it.
pub struct TransferPayout {
    /// The split of the sale amount.
    pub payout: Vec<(String, u128)>,
    /// The owner before the transfer.
    pub previous_owner_id: String,
    /// What the storage of the cleared approvals is worth, owed to the
    /// previous owner.
    pub released: u128,
}

/// The sale operations of a token ledger, for callers that hold it through
/// this interface; the ledger's own methods of the same names state their
/// effects in full.
pub trait NonFungibleTokenCore: Sized {
    /// The ledger's invariant.
    spec fn ledger_wf(&self) -> bool;

    /// What asking for the split of `balance` over the royalty of `token_id`
    /// answers, with at most `max_len_payout` recipients allowed.
    spec fn payout_status(&self, token_id: Seq<char>, balance: nat, max_len_payout: u32) -> Result<
        Seq<(Seq<char>, nat)>,
        NftError,
    >;

    /// How a sale of `token_id` relates the ledger before, the ledger `after`
    /// and the result `r`.
    spec fn transfer_payout_effect(
        &self,
        after: Self,
        sender_id: Seq<char>,
        receiver_id: Seq<char>,
        token_id: Seq<char>,
        approval_id: u64,
        balance: u128,
        max_len_payout: u32,
        byte_cost: u128,
        r: Result<TransferPayout, NftError>,
    ) -> bool;

    fn nft_payout(&self, token_id: &String, balance: u128, max_len_payout: u32) -> (r: Result<
        Vec<(String, u128)>,
        NftError,
    >)
        requires
            self.ledger_wf(),
        ensures
            match self.payout_status(token_id@, balance as nat, max_len_payout) {
                Ok(split) => r matches Ok(payout) && payout_view(payout@) == split,
                Err(e) => r == Err::<Vec<(String, u128)>, NftError>(e),
            },
    ;

    fn nft_transfer_payout(
        &mut self,
        sender_id: &String,
        receiver_id: &String,
        token_id: &String,
        approval_id: u64,
        balance: u128,
        max_len_payout: u32,
        byte_cost: u128,
    ) -> (r: Result<TransferPayout, NftError>)
        requires
            old(self).ledger_wf(),
        ensures
            final(self).ledger_wf(),
            old(self).transfer_payout_effect(
                *final(self),
                sender_id@,
                receiver_id@,
                token_id@,
                approval_id,
                balance,
                max_len_payout,
                byte_cost,
                r,
            ),
    ;
}

impl NonFungibleTokenCore for Contract {
    open spec fn ledger_wf(&self) -> bool {
        self.wf()
    }

    open spec fn transfer_payout_effect(
        &self,
        after: Self,
        sender_id: Seq<char>,
        receiver_id: Seq<char>,
        token_id: Seq<char>,
        approval_id: u64,
        balance: u128,
        max_len_payout: u32,
        byte_cost: u128,
        r: Result<TransferPayout, NftError>,
    ) -> bool {
        transfer_payout_outcome(
            *self,
            after,
            sender_id,
            receiver_id,
            token_id,
            approval_id,
            balance,
            max_len_payout,
            byte_cost,
            r,
        )
    }

    open spec fn payout_status(&self, token_id: Seq<char>, balance: nat, max_len_payout: u32) -> Result<
        Seq<(Seq<char>, nat)>,
        NftError,
    > {
        if !self.ledger().dom().contains(token_id) {
            Err(NftError::NotFound)
        } else if self.ledger()[token_id].royalty.len() > max_len_payout {
            Err(NftError::TooManyRecipients)
        } else {
            Ok(
                payout_split(
                    self.ledger()[token_id].royalty,
                    self.ledger()[token_id].owner_id,
                    balance,
                ),
            )
        }
    }

    fn nft_payout(&self, token_id: &String, balance: u128, max_len_payout: u32) -> (r: Result<
        Vec<(String, u128)>,
        NftError,
    >) {
        Contract::nft_payout(self, token_id, balance, max_len_payout)
    }

    fn nft_transfer_payout(
        &mut self,
        sender_id: &String,
        receiver_id: &String,
        token_id: &String,
        approval_id: u64,
        balance: u128,
        max_len_payout: u32,
        byte_cost: u128,
    ) -> (r: Result<TransferPayout, NftError>) {
        Contract::nft_transfer_payout(
            self,
            sender_id,
            receiver_id,
            token_id,
            approval_id,
            balance,
            max_len_payout,
            byte_cost,
        )
    }
}

/// The relation between the ledger `before` and `after` `Contract::nft_transfer_payout` and its result `r`.
pub open spec fn transfer_payout_outcome(
    before: Contract,
    after: Contract,
    sender_id: Seq<char>,
    receiver_id: Seq<char>,
    token_id: Seq<char>,
    approval_id: u64,
    balance: u128,
    max_len_payout: u32,
    byte_cost: u128,
    r: Result<TransferPayout, NftError>,
) -> bool {
    &&& r is Err ==> after == before
    &&& ({
        let check = transfer_check(
            before.ledger(),
            sender_id,
            receiver_id,
            token_id,
            Some(approval_id),
        );
        let token = before.ledger()[token_id];
        &&& check is Err ==> r is Err && r->Err_0 == check->Err_0
        &&& check is Ok && token.royalty.len() > max_len_payout ==> r == Err::<
            TransferPayout,
            NftError,
        >(NftError::TooManyRecipients)
        &&& check is Ok && token.royalty.len() <= max_len_payout ==> r is Ok
        &&& r matches Ok(out) ==> {
            &&& out.previous_owner_id@ == token.owner_id
            &&& out.released == cap_u128(
                storage_cost(
                    approval_entries_bytes(
                        approval_keys(before.approval_list(token_id)),
                    ) as int,
                    byte_cost as int,
                ),
            )
            &&& payout_view(out.payout@) == payout_split(
                token.royalty,
                receiver_id,
                balance as nat,
            )
            &&& after.ledger() == before.ledger().insert(
                token_id,
                transferred_token(token, receiver_id),
            )
            &&& after.owner_index() == index_with(
                index_without(before.owner_index(), token.owner_id, token_id),
                receiver_id,
                token_id,
            )
        }
    })
}

impl Contract {
    /// The split of `balance` over the royalty of `token_id`, where it has at
    /// most `max_len_payout` entries.
    pub fn nft_payout(&self, token_id: &String, balance: u128, max_len_payout: u32) -> (r: Result<
        Vec<(String, u128)>,
        NftError,
    >)
        requires
            self.wf(),
        ensures
            !self.ledger().dom().contains(token_id@) ==> r == Err::<Vec<(String, u128)>, NftError>(
                NftError::NotFound,
            ),
            ({
                let token = self.ledger()[token_id@];
                self.ledger().dom().contains(token_id@) ==> {
                    &&& token.royalty.len() > max_len_payout ==> r == Err::<
                        Vec<(String, u128)>,
                        NftError,
                    >(NftError::TooManyRecipients)
                    &&& token.royalty.len() <= max_len_payout ==> r is Ok
                    &&& r matches Ok(payout) ==> payout_view(payout@) == payout_split(
                        token.royalty,
                        token.owner_id,
                        balance as nat,
                    )
                }
            }),
    {
        match self.find_token(token_id) {
            None => Err(NftError::NotFound),
            Some(i) => compute_payout(&self.tokens_by_id[i].1, balance, max_len_payout),
        }
    }

    /// Transfers `token_id` to `receiver_id` on the request of `sender_id`,
    /// who presents `approval_id`, and splits the sale amount `balance` over
    /// the token's royalty with the new owner taking the rest; refused
    /// whole where the royalty has more than `max_len_payout` entries.
    pub fn nft_transfer_payout(
        &mut self,
        sender_id: &String,
        receiver_id: &String,
        token_id: &String,
        approval_id: u64,
        balance: u128,
        max_len_payout: u32,
        byte_cost: u128,
    ) -> (r: Result<TransferPayout, NftError>)
        requires
            old(self).wf(),
        ensures
            final(self).wf(),
            transfer_payout_outcome(*old(self), *final(self), sender_id@, receiver_id@, token_id@, approval_id, balance, max_len_payout, byte_cost, r),
    {
        let i = match self.find_token(token_id) {
            None => {
                return Err(NftError::NotFound);
            },
            Some(i) => i,
        };
        let token = &self.tokens_by_id[i].1;
        match authorize_transfer(token, sender_id, Some(approval_id)) {
            Err(e) => {
                return Err(e);
            },
            Ok(_) => {},
        }
        if *sender_id == *receiver_id {
            return Err(NftError::SelfTransfer);
        }
        if token.royalty.len() as u64 > max_len_payout as u64 {
            return Err(NftError::TooManyRecipients);
        }
        let previous = match self.internal_transfer(sender_id, receiver_id, token_id, Some(approval_id)) {
            Err(e) => {
                return Err(e);
            },
            Ok(previous) => previous,
        };
        let released = refund_approved_account_ids(&previous.approved_account_ids, byte_cost);
        let payout = match self.nft_payout(token_id, balance, max_len_payout) {
            Err(e) => {
                return Err(e);
            },
            Ok(payout) => payout,
        };
        Ok(TransferPayout { payout, previous_owner_id: previous.owner_id, released })
    }
}

} // verus!
