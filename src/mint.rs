use vstd::prelude::*;

use crate::assoc::{
    find_key, has_key, keys_unique, lemma_assoc_index, lemma_assoc_push, pairs_view,
};
use crate::contract::{index_with, ledger_pairs, ownership_consistent, Contract};
use crate::error::NftError;
use crate::storage::{bytes_for_token, charge, storage_cost, token_entry_bytes};
use crate::token::{
    royalty_valid, shares_total, Token, TokenView, FULL_SHARE_BASIS_POINTS,
    MAX_ROYALTY_RECIPIENTS,
};

verus! {

/// The royalty entries that a mint request asks for.
pub open spec fn requested_royalty(perpetual_royalties: Option<Vec<(String, u32)>>) -> Seq<
    (Seq<char>, u32),
> {
    match perpetual_royalties {
        Some(v) => pairs_view(v@),
        None => Seq::empty(),
    }
}

/// The ledger entry of a freshly minted token.
pub open spec fn minted_token(owner_id: Seq<char>, royalty: Seq<(Seq<char>, u32)>) -> TokenView {
    TokenView {
        owner_id,
        approvals: Map::empty(),
        next_approval_id: 0,
        royalty,
    }
}

/// Whether the royalty entries `royalty` name each recipient once and share
/// out at most the whole sale amount.
pub fn royalty_is_valid(royalty: &Vec<(String, u32)>) -> (r: bool)
    ensures
        r == royalty_valid(pairs_view(royalty@)),
{
    let ghost view = pairs_view(royalty@);
    let mut total: u128 = 0;
    let mut i: usize = 0;
    while i < royalty.len()
        invariant
            i <= royalty@.len(),
            view == pairs_view(royalty@),
            keys_unique(view.subrange(0, i as int)),
            total == shares_total(view.subrange(0, i as int)),
            total <= i * (u32::MAX as int),
        decreases royalty@.len() - i,
    {
        let mut j: usize = 0;
        while j < i
            invariant
                j <= i < royalty@.len(),
                view == pairs_view(royalty@),
                forall|k: int| 0 <= k < j ==> view[k].0 != view[i as int].0,
            decreases i - j,
        {
            if royalty[j].0 == royalty[i].0 {
                assert(view[j as int].0 == view[i as int].0);
                assert(!keys_unique(view));
                return false;
            }
            assert(view[j as int].0 == royalty@[j as int].0@);
            assert(view[i as int].0 == royalty@[i as int].0@);
            j += 1;
        }
        assert(view.subrange(0, i + 1).drop_last() =~= view.subrange(0, i as int));
        total = total + royalty[i].1 as u128;
        i += 1;
        assert(keys_unique(view.subrange(0, i as int))) by {
            let s = view.subrange(0, i as int);
            assert forall|a: int, b: int| 0 <= a < b < s.len() implies s[a].0 != s[b].0 by {
                if b < i - 1 {
                    assert(view.subrange(0, i - 1)[a] == s[a]);
                    assert(view.subrange(0, i - 1)[b] == s[b]);
                }
            }
        }
    }
    assert(view.subrange(0, i as int) =~= view);
    total <= FULL_SHARE_BASIS_POINTS as u128
}

impl Contract {
    /// Mints `token_id` to `receiver_id` with `metadata` and the royalty
    /// `perpetual_royalties`, paid for by `attached_deposit` at `byte_cost` per
    /// byte of storage; returns the change owed to the payer.
    pub fn nft_mint(
        &mut self,
        token_id: String,
        metadata: String,
        receiver_id: String,
        perpetual_royalties: Option<Vec<(String, u32)>>,
        attached_deposit: u128,
        byte_cost: u128,
    ) -> (r: Result<u128, NftError>)
        requires
            old(self).wf(),
        ensures
            final(self).wf(),
            ({
                let royalty = requested_royalty(perpetual_royalties);
                let cost = storage_cost(
                    token_entry_bytes(token_id@, receiver_id@, royalty, metadata@) as int,
                    byte_cost as int,
                );
                &&& (r == Err::<u128, NftError>(NftError::TooManyRecipients) <==> royalty.len()
                    > MAX_ROYALTY_RECIPIENTS)
                &&& (r == Err::<u128, NftError>(NftError::InvalidRoyalty) <==> royalty.len()
                    <= MAX_ROYALTY_RECIPIENTS && !royalty_valid(royalty))
                &&& (r == Err::<u128, NftError>(NftError::AlreadyExists) <==> royalty.len()
                    <= MAX_ROYALTY_RECIPIENTS && royalty_valid(royalty) && old(
                    self,
                ).ledger().dom().contains(token_id@))
                &&& (r == Err::<u128, NftError>(NftError::InsufficientPayment) <==> royalty.len()
                    <= MAX_ROYALTY_RECIPIENTS && royalty_valid(royalty) && !old(
                    self,
                ).ledger().dom().contains(token_id@) && attached_deposit < cost)
                &&& r is Err ==> *final(self) == *old(self)
                &&& (r is Ok <==> royalty.len() <= MAX_ROYALTY_RECIPIENTS && royalty_valid(royalty)
                    && !old(self).ledger().dom().contains(token_id@) && attached_deposit >= cost)
                &&& r matches Ok(refund) ==> {
                    &&& refund == attached_deposit - cost
                    &&& final(self).ledger() == old(self).ledger().insert(
                        token_id@,
                        minted_token(receiver_id@, royalty),
                    )
                    &&& final(self).owner_index() == index_with(
                        old(self).owner_index(),
                        receiver_id@,
                        token_id@,
                    )
                    &&& final(self).token_metadata@ == old(self).token_metadata@.push(metadata)
                }
            }),
    {
        let royalty = match perpetual_royalties {
            Some(v) => v,
            None => Vec::new(),
        };
        proof {
            assert(pairs_view(royalty@) =~= requested_royalty(perpetual_royalties));
        }
        if royalty.len() > MAX_ROYALTY_RECIPIENTS {
            return Err(NftError::TooManyRecipients);
        }
        if !royalty_is_valid(&royalty) {
            return Err(NftError::InvalidRoyalty);
        }
        if let Some(i) = find_key(&self.tokens_by_id, &token_id) {
            proof {
                assert(ledger_pairs(self.tokens_by_id@)[i as int].0 == token_id@);
                lemma_assoc_index(ledger_pairs(self.tokens_by_id@), i as int);
            }
            return Err(NftError::AlreadyExists);
        }
        proof {
            if has_key(ledger_pairs(self.tokens_by_id@), token_id@) {
                let k = choose|k: int|
                    0 <= k < ledger_pairs(self.tokens_by_id@).len() && ledger_pairs(
                        self.tokens_by_id@,
                    )[k].0 == token_id@;
                assert(self.tokens_by_id@[k].0@ == token_id@);
            }
        }
        let bytes = bytes_for_token(token_id.as_str(), receiver_id.as_str(), &royalty, metadata.as_str());
        let refund = match charge(bytes, attached_deposit, byte_cost) {
            Err(e) => {
                return Err(e);
            },
            Ok(refund) => refund,
        };
        let ghost old_ledger = self.ledger();
        let ghost old_index = self.owner_index();
        let ghost old_pairs = ledger_pairs(self.tokens_by_id@);
        let token = Token {
            owner_id: receiver_id.clone(),
            approved_account_ids: Vec::new(),
            next_approval_id: 0,
            royalty,
        };
        let ghost tv = token@;
        proof {
            assert(tv.approvals =~= Map::<Seq<char>, u64>::empty());
            assert(keys_unique(pairs_view(token.approved_account_ids@)));
            lemma_assoc_push(old_pairs, token_id@, tv);
        }
        self.tokens_by_id.push((token_id.clone(), token));
        self.token_metadata.push(metadata);
        proof {
            assert(ledger_pairs(self.tokens_by_id@) =~= old_pairs.push((token_id@, tv)));
            assert(self.ledger() == old_ledger.insert(token_id@, tv));
            let s = self.tokens_by_id@;
            assert forall|i: int| 0 <= i < s.len() implies (#[trigger] s[i]).1.wf() by {
                if i < s.len() - 1 {
                    assert(s[i] == old(self).tokens_by_id@[i]);
                }
            }
            assert forall|o: Seq<char>| #[trigger] old_index.dom().contains(o) implies !old_index[o].contains(
                token_id@,
            ) by {
                if old_index[o].contains(token_id@) {
                    assert(old_ledger.dom().contains(token_id@));
                }
            }
        }
        self.internal_add_token_to_owner(&receiver_id, &token_id);
        proof {
            let ledger = self.ledger();
            let index = self.owner_index();
            assert forall|t: Seq<char>| #[trigger] ledger.dom().contains(t) implies index.dom().contains(
                ledger[t].owner_id,
            ) && index[ledger[t].owner_id].contains(t) by {
                if t != token_id@ {
                    assert(old_ledger.dom().contains(t));
                }
            }
            assert forall|o: Seq<char>, t: Seq<char>|
                index.dom().contains(o) && #[trigger] index[o].contains(t) implies ledger.dom().contains(t)
                && ledger[t].owner_id == o by {
                if o != receiver_id@ || t != token_id@ {
                    if o == receiver_id@ {
                        assert(old_index[o].contains(t));
                    }
                    assert(old_index.dom().contains(o) && old_index[o].contains(t));
                }
            }
            assert(ownership_consistent(ledger, index));
        }
        Ok(refund)
    }
}

} // verus!
