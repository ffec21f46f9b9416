//! Verified state models of the SO4 market contracts: the referral registry,
//! the deposit and withdrawal request flows, the per-account position list,
//! the storage TTL policy book, and swap route planning.

pub mod bytes;
pub mod collections;
pub mod referral;
pub mod deposit_flow;
pub mod withdrawal_flow;
pub mod position_list;
pub mod storage_ttl;
pub mod swap_route;
