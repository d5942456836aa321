use vstd::prelude::*;

use crate::assoc::{keys_unique, lemma_assoc_update, pairs_view};
use crate::contract::{
    index_with, index_without, ledger_pairs, ownership_consistent, Contract,
};
use crate::error::NftError;
use crate::token::{authorization, authorize_transfer, copy_entries, Token, TokenView};

verus! {

/// The ledger entry of `token` after it has passed to `receiver_id`: no
/// delegates, and the approval counter and royalty kept.
pub open spec fn transferred_token(token: TokenView, receiver_id: Seq<char>) -> TokenView {
    TokenView {
        owner_id: receiver_id,
        approvals: Map::empty(),
        next_approval_id: token.next_approval_id,
        royalty: token.royalty,
    }
}

/// The outcome of `sender_id` asking to transfer `token_id` to `receiver_id`,
/// presenting `approval_id` if any.
pub open spec fn transfer_check(
    ledger: Map<Seq<char>, TokenView>,
    sender_id: Seq<char>,
    receiver_id: Seq<char>,
    token_id: Seq<char>,
    approval_id: Option<u64>,
) -> Result<(), NftError> {
    if !ledger.dom().contains(token_id) {
        Err(NftError::NotFound)
    } else if authorization(ledger[token_id], sender_id, approval_id) is Err {
        authorization(ledger[token_id], sender_id, approval_id)
    } else if sender_id == receiver_id {
        Err(NftError::SelfTransfer)
    } else {
        Ok(())
    }
}

impl Contract {
    /// Moves `token_id` from its owner to `receiver_id` on the request of
    /// `sender_id`, who must be the owner or an approved delegate; clears the
    /// token's approvals and returns the entry as it was before.
    pub fn internal_transfer(
        &mut self,
        sender_id: &String,
        receiver_id: &String,
        token_id: &String,
        approval_id: Option<u64>,
    ) -> (r: Result<Token, NftError>)
        requires
            old(self).wf(),
        ensures
            final(self).wf(),
            ({
                let check = transfer_check(
                    old(self).ledger(),
                    sender_id@,
                    receiver_id@,
                    token_id@,
                    approval_id,
                );
                &&& check is Err ==> r is Err && r->Err_0 == check->Err_0
                    && *final(self) == *old(self)
                &&& check is Ok ==> r is Ok
                &&& r matches Ok(previous) ==> {
                    let token = old(self).ledger()[token_id@];
                    &&& previous@ == token
                    &&& pairs_view(previous.approved_account_ids@) == old(self).approval_list(
                        token_id@,
                    )
                    &&& previous.wf()
                    &&& final(self).ledger() == old(self).ledger().insert(
                        token_id@,
                        transferred_token(token, receiver_id@),
                    )
                    &&& final(self).owner_index() == index_with(
                        index_without(old(self).owner_index(), token.owner_id, token_id@),
                        receiver_id@,
                        token_id@,
                    )
                    &&& final(self).token_metadata == old(self).token_metadata
                }
            }),
    {
        let ghost old_pairs = ledger_pairs(self.tokens_by_id@);
        let ghost old_ledger = self.ledger();
        let ghost old_index = self.owner_index();
        let i = match self.find_token(token_id) {
            None => {
                return Err(NftError::NotFound);
            },
            Some(i) => i,
        };
        match authorize_transfer(&self.tokens_by_id[i].1, sender_id, approval_id) {
            Err(e) => {
                return Err(e);
            },
            Ok(_) => {},
        }
        if *sender_id == *receiver_id {
            return Err(NftError::SelfTransfer);
        }
        let (id, previous) = self.tokens_by_id.remove(i);
        let new_token = Token {
            owner_id: receiver_id.clone(),
            approved_account_ids: Vec::new(),
            next_approval_id: previous.next_approval_id,
            royalty: copy_entries(&previous.royalty),
        };
        let ghost nv = new_token@;
        proof {
            assert(nv.approvals =~= Map::<Seq<char>, u64>::empty());
            assert(nv == transferred_token(previous@, receiver_id@));
            assert(keys_unique(pairs_view(new_token.approved_account_ids@)));
            lemma_assoc_update(old_pairs, i as int, nv);
        }
        self.tokens_by_id.insert(i, (id, new_token));
        proof {
            assert(ledger_pairs(self.tokens_by_id@) =~= old_pairs.update(i as int, (token_id@, nv)));
            let s = self.tokens_by_id@;
            assert forall|k: int| 0 <= k < s.len() implies (#[trigger] s[k]).1.wf() by {
                if k != i {
                    assert(s[k] == old(self).tokens_by_id@[k]);
                }
            }
        }
        let owner = previous.owner_id.clone();
        let ghost from = owner@;
        proof {
            assert(old_ledger.dom().contains(token_id@));
        }
        self.internal_remove_token_from_owner(&owner, token_id);
        let ghost mid = self.owner_index();
        proof {
            assert forall|o: Seq<char>| #[trigger] mid.dom().contains(o) implies !mid[o].contains(
                token_id@,
            ) by {
                if o != from {
                    if old_index[o].contains(token_id@) {
                        assert(old_ledger[token_id@].owner_id == o);
                    }
                }
            }
        }
        self.internal_add_token_to_owner(receiver_id, token_id);
        proof {
            let ledger = self.ledger();
            let index = self.owner_index();
            assert forall|t: Seq<char>| #[trigger] ledger.dom().contains(t) implies index.dom().contains(
                ledger[t].owner_id,
            ) && index[ledger[t].owner_id].contains(t) by {
                if t != token_id@ {
                    assert(old_ledger.dom().contains(t));
                    let o = old_ledger[t].owner_id;
                    assert(old_index.dom().contains(o) && old_index[o].contains(t));
                    if o == from {
                        assert(old_index[o].remove(token_id@).contains(t));
                    }
                    assert(mid.dom().contains(o) && mid[o].contains(t));
                }
            }
            assert forall|o: Seq<char>, t: Seq<char>|
                index.dom().contains(o) && #[trigger] index[o].contains(t) implies ledger.dom().contains(t)
                && ledger[t].owner_id == o by {
                if o != receiver_id@ || t != token_id@ {
                    assert(mid.dom().contains(o) && mid[o].contains(t));
                    assert(old_index.dom().contains(o) && old_index[o].contains(t));
                    assert(t != token_id@);
                }
            }
            assert(ownership_consistent(ledger, index));
        }
        Ok(previous)
    }
}

/// A transfer leaves the token with no delegates and its approval counter
/// where it was.
pub proof fn lemma_transfer_clears_approvals(token: TokenView, receiver_id: Seq<char>)
    ensures
        transferred_token(token, receiver_id).approvals.dom().is_empty(),
        transferred_token(token, receiver_id).next_approval_id == token.next_approval_id,
        transferred_token(token, receiver_id).owner_id == receiver_id,
{
}

} // verus!
