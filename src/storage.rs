use vstd::prelude::*;
use vstd::utf8::encode_utf8;

use crate::assoc::pairs_view;
use crate::error::NftError;

verus! {

/// Bytes of the length prefix that serialisation puts before a string.
pub const LENGTH_PREFIX_BYTES: u128 = 4;

/// Bytes of a stored approval id.
pub const APPROVAL_ID_BYTES: u128 = 8;

/// Number of bytes of the UTF-8 encoding of `s`, as `str::len` reports it.
pub open spec fn utf8_len(s: Seq<char>) -> nat {
    (encode_utf8(s).len() as usize) as nat
}

/// Storage held by one approval entry for the delegate `account_id`.
pub open spec fn approval_entry_bytes(account_id: Seq<char>) -> nat {
    (utf8_len(account_id) + LENGTH_PREFIX_BYTES + APPROVAL_ID_BYTES) as nat
}

/// Storage held by the approval entries of all the delegates in `accounts`.
pub open spec fn approval_entries_bytes(accounts: Seq<Seq<char>>) -> nat
    decreases accounts.len(),
{
    if accounts.len() == 0 {
        0
    } else {
        approval_entries_bytes(accounts.drop_last()) + approval_entry_bytes(accounts.last())
    }
}

/// `x`, or the largest `u128` where `x` does not fit.
pub open spec fn cap_u128(x: int) -> u128 {
    if x > u128::MAX {
        u128::MAX
    } else {
        x as u128
    }
}

/// Cost of `bytes` bytes of storage at `byte_cost` per byte.
pub open spec fn storage_cost(bytes: int, byte_cost: int) -> int {
    bytes * byte_cost
}

/// Bytes that one approval entry for `account_id` occupies: the string, its
/// length prefix and the approval id.
pub fn bytes_for_approved_account_id(account_id: &str) -> (r: u128)
    ensures
        r == approval_entry_bytes(account_id@),
{
    account_id.len() as u128 + LENGTH_PREFIX_BYTES + APPROVAL_ID_BYTES
}

/// Checks that `attached_deposit` covers `bytes_used` bytes of storage and
/// returns what is left over, owed back to the payer.
pub fn charge(bytes_used: u128, attached_deposit: u128, byte_cost: u128) -> (r: Result<
    u128,
    NftError,
>)
    ensures
        r is Err <==> attached_deposit < storage_cost(bytes_used as int, byte_cost as int),
        r is Err ==> r == Err::<u128, NftError>(NftError::InsufficientPayment),
        r matches Ok(refund) ==> refund == attached_deposit - storage_cost(
            bytes_used as int,
            byte_cost as int,
        ),
{
    match bytes_used.checked_mul(byte_cost) {
        None => Err(NftError::InsufficientPayment),
        Some(required_cost) => {
            if attached_deposit < required_cost {
                Err(NftError::InsufficientPayment)
            } else {
                Ok(attached_deposit - required_cost)
            }
        },
    }
}

/// Amount owed back when `bytes_released` bytes of storage are freed, capped
/// at the largest amount a `u128` holds.
pub fn release(bytes_released: u128, byte_cost: u128) -> (r: u128)
    ensures
        r == cap_u128(storage_cost(bytes_released as int, byte_cost as int)),
{
    match bytes_released.checked_mul(byte_cost) {
        None => u128::MAX,
        Some(amount) => amount,
    }
}

/// Whether a refund is worth a transfer: amounts of one unit or less are dust
/// and are kept.
pub fn refund_worth_sending(amount: u128) -> (r: bool)
    ensures
        r == (amount > 1),
{
    amount > 1
}

/// Whether exactly one unit is attached, as revocations demand.
pub fn is_one_yocto(attached_deposit: u128) -> (r: bool)
    ensures
        r == (attached_deposit == 1),
{
    attached_deposit == 1
}

/// Whether at least one unit is attached, as approvals demand.
pub fn is_at_least_one_yocto(attached_deposit: u128) -> (r: bool)
    ensures
        r == (attached_deposit >= 1),
{
    attached_deposit >= 1
}

/// Charging for an entry and later releasing it hands back, in total, exactly
/// what was paid: the change at charge time plus the cost at release time.
pub proof fn lemma_charge_release_round_trip(
    bytes: u128,
    attached_deposit: u128,
    byte_cost: u128,
    refund: u128,
)
    requires
        refund == attached_deposit - storage_cost(bytes as int, byte_cost as int),
        storage_cost(bytes as int, byte_cost as int) <= attached_deposit,
    ensures
        refund + cap_u128(storage_cost(bytes as int, byte_cost as int)) == attached_deposit,
        cap_u128(storage_cost(bytes as int, byte_cost as int)) == storage_cost(
            bytes as int,
            byte_cost as int,
        ),
{
}

/// Bytes of a stored royalty share.
pub const ROYALTY_SHARE_BYTES: u128 = 4;

/// Storage held by the royalty entries `royalty`: each recipient, its length
/// prefix and its share.
pub open spec fn royalty_entries_bytes(royalty: Seq<(Seq<char>, u32)>) -> nat
    decreases royalty.len(),
{
    if royalty.len() == 0 {
        0
    } else {
        (royalty_entries_bytes(royalty.drop_last()) + utf8_len(royalty.last().0)
            + LENGTH_PREFIX_BYTES + ROYALTY_SHARE_BYTES) as nat
    }
}

/// Storage that minting a token takes: the token id under which the ledger
/// entry, the metadata and the owner index entry are kept, the owner, the
/// approval counter, the two map headers of the entry, the royalty entries and
/// the metadata.
pub open spec fn token_entry_bytes(
    token_id: Seq<char>,
    owner_id: Seq<char>,
    royalty: Seq<(Seq<char>, u32)>,
    metadata: Seq<char>,
) -> nat {
    (3 * (utf8_len(token_id) + LENGTH_PREFIX_BYTES) + utf8_len(owner_id) + LENGTH_PREFIX_BYTES
        + APPROVAL_ID_BYTES + 2 * LENGTH_PREFIX_BYTES + royalty_entries_bytes(royalty) + utf8_len(
        metadata,
    ) + LENGTH_PREFIX_BYTES) as nat
}

/// Bytes that a newly minted token occupies.
pub fn bytes_for_token(
    token_id: &str,
    owner_id: &str,
    royalty: &Vec<(String, u32)>,
    metadata: &str,
) -> (r: u128)
    requires
        royalty@.len() <= 6,
    ensures
        r == token_entry_bytes(token_id@, owner_id@, pairs_view(royalty@), metadata@),
{
    let mut royalty_bytes: u128 = 0;
    let mut i: usize = 0;
    while i < royalty.len()
        invariant
            i <= royalty@.len() <= 6,
            royalty_bytes == royalty_entries_bytes(pairs_view(royalty@).subrange(0, i as int)),
            royalty_bytes <= i * (usize::MAX as int + 8),
        decreases royalty@.len() - i,
    {
        let ghost pre = pairs_view(royalty@).subrange(0, i as int);
        let ghost next = pairs_view(royalty@).subrange(0, i + 1);
        assert(next.drop_last() =~= pre);
        assert(royalty_bytes <= 6 * (usize::MAX as int + 8)) by (nonlinear_arith)
            requires
                royalty_bytes <= i * (usize::MAX as int + 8),
                i <= 6,
        ;
        royalty_bytes = royalty_bytes + royalty[i].0.as_str().len() as u128 + LENGTH_PREFIX_BYTES
            + ROYALTY_SHARE_BYTES;
        i += 1;
        assert(royalty_bytes <= i * (usize::MAX as int + 8)) by (nonlinear_arith)
            requires
                royalty_bytes <= (i - 1) * (usize::MAX as int + 8) + usize::MAX as int + 8,
        ;
    }
    assert(pairs_view(royalty@).subrange(0, i as int) =~= pairs_view(royalty@));
    assert(royalty_bytes <= 6 * (usize::MAX as int + 8)) by (nonlinear_arith)
        requires
            royalty_bytes <= i * (usize::MAX as int + 8),
            i <= 6,
    ;
    3 * (token_id.len() as u128 + LENGTH_PREFIX_BYTES) + owner_id.len() as u128
        + LENGTH_PREFIX_BYTES + APPROVAL_ID_BYTES + 2 * LENGTH_PREFIX_BYTES + royalty_bytes
        + metadata.len() as u128 + LENGTH_PREFIX_BYTES
}

/// The delegates of a list of approval entries.
pub open spec fn approval_keys(approvals: Seq<(Seq<char>, u64)>) -> Seq<Seq<char>> {
    approvals.map_values(|p: (Seq<char>, u64)| p.0)
}

/// Amount owed back for the storage of the approval entries `approvals`,
/// capped at the largest amount a `u128` holds.
pub fn refund_approved_account_ids(approvals: &Vec<(String, u64)>, byte_cost: u128) -> (r: u128)
    ensures
        r == cap_u128(
            storage_cost(
                approval_entries_bytes(approval_keys(pairs_view(approvals@))) as int,
                byte_cost as int,
            ),
        ),
{
    let ghost keys = approval_keys(pairs_view(approvals@));
    let mut released: u128 = 0;
    let mut i: usize = 0;
    while i < approvals.len()
        invariant
            i <= approvals@.len(),
            keys == approval_keys(pairs_view(approvals@)),
            released == cap_u128(approval_entries_bytes(keys.subrange(0, i as int)) as int),
        decreases approvals@.len() - i,
    {
        assert(keys.subrange(0, i + 1).drop_last() =~= keys.subrange(0, i as int));
        assert(keys[i as int] == approvals@[i as int].0@);
        released = released.saturating_add(bytes_for_approved_account_id(approvals[i].0.as_str()));
        i += 1;
    }
    assert(keys.subrange(0, i as int) =~= keys);
    let ghost total = approval_entries_bytes(keys) as int;
    let amount = release(released, byte_cost);
    proof {
        if total > u128::MAX {
            assert(released == u128::MAX);
            if byte_cost > 0 {
                assert(released * byte_cost >= released) by (nonlinear_arith)
                    requires
                        byte_cost >= 1,
                        released >= 0,
                ;
                assert(total * byte_cost >= total) by (nonlinear_arith)
                    requires
                        byte_cost >= 1,
                        total >= 0,
                ;
                assert(amount == u128::MAX);
            } else {
                assert(total * byte_cost == 0) by (nonlinear_arith)
                    requires
                        byte_cost == 0,
                ;
                assert(released * byte_cost == 0) by (nonlinear_arith)
                    requires
                        byte_cost == 0,
                ;
            }
        } else {
            assert(released == total);
        }
    }
    amount
}

} // verus!
