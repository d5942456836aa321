//! A non-fungible-token ledger: ownership records, a reverse owner index,
//! per-token delegated approvals with monotonic ids, storage-rent accounting
//! and royalty payouts.

pub mod assoc;
pub mod error;
pub mod storage;
pub mod token;
pub mod contract;
pub mod mint;
pub mod transfer;
pub mod approval;
pub mod royalty;
pub mod enumeration;
