use vstd::prelude::*;

use crate::assoc::{assoc_map, has_key, keys_unique, pairs_view};
use crate::error::NftError;

verus! {

/// Basis points that make up a whole sale amount.
pub const FULL_SHARE_BASIS_POINTS: u32 = 10000;

/// Most royalty recipients a token may be minted with.
pub const MAX_ROYALTY_RECIPIENTS: usize = 6;

/// Sum of the basis points of the royalty entries `royalty`.
pub open spec fn shares_total(royalty: Seq<(Seq<char>, u32)>) -> nat
    decreases royalty.len(),
{
    if royalty.len() == 0 {
        0
    } else {
        shares_total(royalty.drop_last()) + royalty.last().1 as nat
    }
}

/// A royalty configuration that a token can carry: no recipient twice, at most
/// the whole sale amount in total.
pub open spec fn royalty_valid(royalty: Seq<(Seq<char>, u32)>) -> bool {
    &&& keys_unique(royalty)
    &&& shares_total(royalty) <= FULL_SHARE_BASIS_POINTS
}

/// A ledger entry.
pub struct Token {
    /// Current owner.
    pub owner_id: String,
    /// Delegates allowed to transfer the token, each with its approval id.
    pub approved_account_ids: Vec<(String, u64)>,
    /// The id the next approval will get.
    pub next_approval_id: u64,
    /// Recipients of a share of every sale, in basis points.
    pub royalty: Vec<(String, u32)>,
}

/// What a ledger entry means.
pub struct TokenView {
    pub owner_id: Seq<char>,
    pub approvals: Map<Seq<char>, u64>,
    pub next_approval_id: u64,
    pub royalty: Seq<(Seq<char>, u32)>,
}

impl View for Token {
    type V = TokenView;

    open spec fn view(&self) -> TokenView {
        TokenView {
            owner_id: self.owner_id@,
            approvals: assoc_map(pairs_view(self.approved_account_ids@)),
            next_approval_id: self.next_approval_id,
            royalty: pairs_view(self.royalty@),
        }
    }
}

impl Token {
    /// Delegates are listed once each, never the owner itself, under ids that
    /// were issued before the counter's current value, and the royalty is
    /// valid.
    pub open spec fn wf(&self) -> bool {
        &&& keys_unique(pairs_view(self.approved_account_ids@))
        &&& forall|i: int|
            0 <= i < self.approved_account_ids@.len() ==> (#[trigger] self.approved_account_ids@[i]).0@
                != self.owner_id@
        &&& forall|i: int|
            0 <= i < self.approved_account_ids@.len() ==> (#[trigger] self.approved_account_ids@[i]).1
                < self.next_approval_id
        &&& royalty_valid(pairs_view(self.royalty@))
    }
}

/// Copy of a list of string-keyed entries, equal to `entries`.
pub fn copy_entries<V: Copy>(entries: &Vec<(String, V)>) -> (r: Vec<(String, V)>)
    ensures
        r@ == entries@,
{
    let mut r: Vec<(String, V)> = Vec::new();
    let mut i: usize = 0;
    while i < entries.len()
        invariant
            i <= entries@.len(),
            r@ == entries@.subrange(0, i as int),
        decreases entries@.len() - i,
    {
        let e = &entries[i];
        r.push((e.0.clone(), e.1));
        i += 1;
        assert(r@ =~= entries@.subrange(0, i as int));
    }
    assert(r@ =~= entries@);
    r
}

/// The outcome that authorising `caller` to transfer `token` has, presenting
/// `approval_id` if any.
pub open spec fn authorization(token: TokenView, caller: Seq<char>, approval_id: Option<u64>) -> Result<
    (),
    NftError,
> {
    if caller == token.owner_id {
        Ok(())
    } else if !token.approvals.dom().contains(caller) {
        Err(NftError::Unauthorized)
    } else if approval_id is Some && approval_id->Some_0 != token.approvals[caller] {
        Err(NftError::ApprovalMismatch)
    } else {
        Ok(())
    }
}

/// Decides whether `caller` may transfer `token`: the owner always may; a
/// delegate may when listed and, if it presents an approval id, when that id is
/// the one stored for it.
pub fn authorize_transfer(token: &Token, caller: &String, approval_id: Option<u64>) -> (r: Result<
    (),
    NftError,
>)
    requires
        token.wf(),
    ensures
        r == authorization(token@, caller@, approval_id),
{
    if *caller == token.owner_id {
        return Ok(());
    }
    match crate::assoc::find_key(&token.approved_account_ids, caller) {
        None => {
            assert(!has_key(pairs_view(token.approved_account_ids@), caller@));
            Err(NftError::Unauthorized)
        },
        Some(i) => {
            proof {
                crate::assoc::lemma_assoc_index(pairs_view(token.approved_account_ids@), i as int);
            }
            match approval_id {
                Some(id) => {
                    if id != token.approved_account_ids[i].1 {
                        Err(NftError::ApprovalMismatch)
                    } else {
                        Ok(())
                    }
                },
                None => Ok(()),
            }
        },
    }
}

/// The owner is authorised whatever it presents; an account that is not a
/// delegate is refused as unauthorised; a delegate is refused as presenting a
/// mismatch when it presents another id than its own, and is authorised when it
/// presents its own id or none.
pub proof fn lemma_authorization_correct(
    token: TokenView,
    caller: Seq<char>,
    approval_id: Option<u64>,
)
    ensures
        caller == token.owner_id ==> authorization(token, caller, approval_id) is Ok,
        caller != token.owner_id && !token.approvals.dom().contains(caller) ==> authorization(
            token,
            caller,
            approval_id,
        ) == Err::<(), NftError>(NftError::Unauthorized),
        caller != token.owner_id && token.approvals.dom().contains(caller) && approval_id
            is Some && approval_id->Some_0 != token.approvals[caller] ==> authorization(
            token,
            caller,
            approval_id,
        ) == Err::<(), NftError>(NftError::ApprovalMismatch),
        caller != token.owner_id && token.approvals.dom().contains(caller) && (approval_id
            is None || approval_id == Some(token.approvals[caller])) ==> authorization(
            token,
            caller,
            approval_id,
        ) is Ok,
{
}

} // verus!
