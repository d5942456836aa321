use vstd::prelude::*;

verus! {

/// Every way in which a ledger operation can be refused.
#[derive(Clone, Copy, Debug, PartialEq, Eq, Structural)]
pub enum NftError {
    /// The token id is not in the ledger.
    NotFound,
    /// A token with this id was minted before.
    AlreadyExists,
    /// The caller is neither the owner nor an approved delegate.
    Unauthorized,
    /// The delegate presented an approval id other than the one stored.
    ApprovalMismatch,
    /// The attached payment does not cover the storage cost.
    InsufficientPayment,
    /// There are more royalty recipients than the caller allows.
    TooManyRecipients,
    /// A royalty names a recipient twice or shares out more than the whole.
    InvalidRoyalty,
    /// The owner asked to approve itself as a delegate of its own token.
    SelfApproval,
    /// Sender and receiver of a transfer are the same account.
    SelfTransfer,
}

} // verus!
