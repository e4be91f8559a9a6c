use vstd::prelude::*;

verus! {

/// Why a call to the pool or to a vault was rejected. Every rejection aborts
/// the whole call: no state changes and no asset moves.
#[derive(Clone, Copy, Debug, PartialEq, Eq, Structural)]
pub enum StakingError {
    /// `initialize` was called a second time.
    AlreadyInitialized,
    /// An owner-only call did not carry exactly one incoming transfer.
    NotSoleToken,
    /// The one incoming transfer of an owner-only call is not the contract's own token.
    NotOwnToken,
    /// The one incoming transfer of an owner-only call carries zero units.
    NoTokenUnits,
    /// Staking attempted before the start height.
    StakingNotStarted,
    /// Staking attempted later than two blocks before the end height.
    StakingEnded,
    /// The stake would push the total staked amount above the cap.
    ExceedsMaxStake,
    /// Creating the vault returned no transferable asset.
    VaultCreationFailed,
    /// The newly created vault's identifier already has a position.
    VaultAlreadyBound,
    /// The caller holds no live position.
    NotAStaker,
    /// The owner tried to withdraw before the claim window closed.
    ClaimWindowOpen,
    /// The vault has no reference to its pool.
    CollectionMissing,
    /// The pool's answer to a forwarded unstake does not start with an asset identifier.
    MalformedPoolResponse,
}

} // verus!
