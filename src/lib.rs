//! Proportional-reward staking: a pool that locks a staking asset until the end
//! of a fixed window and shares a pre-funded reward by principal times remaining
//! duration, and the per-stake vaults that act as bearer receipts.
//!
//! `pool` holds the pool's state machine, `vault` the receipt's, `laws` the
//! properties proved of them, `parcel` and `id` the asset transfers and
//! identifiers they exchange.

pub mod error;
pub mod id;
pub mod laws;
pub mod parcel;
pub mod pool;
pub mod vault;
