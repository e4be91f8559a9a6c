use vstd::prelude::*;

use crate::error::StakingError;
use crate::id::{id_of_bytes, AlkaneId};
use crate::parcel::{authenticate, auth_failure, AlkaneTransfer, CallResponse, Cellpack, Context};

verus! {

/// Opcode of the pool's unstake.
pub const POOL_UNSTAKE_OPCODE: u128 = 51;

/// The receipt of one stake: a contract of its own, whose token its holder presents
/// to unstake. It holds the staked principal in its own balance.
#[derive(Clone, Copy, Debug, PartialEq, Eq, Structural)]
pub struct StakingVault {
    pub initialized: bool,
    /// The pool that created the vault.
    pub collection: Option<AlkaneId>,
    /// The position's sequence number in the pool.
    pub index: u128,
}

/// What a finished unstake sends out: the pool's answer, then `staking_balance`
/// units of the asset its payload names.
pub open spec fn unstake_transfers(pool_response: CallResponse, staking_balance: u128) -> Seq<
    AlkaneTransfer,
> {
    pool_response.alkanes@.push(
        AlkaneTransfer { id: id_of_bytes(pool_response.data@), value: staking_balance },
    )
}

impl StakingVault {
    /// A vault that has not been initialized.
    pub fn new() -> (r: StakingVault)
        ensures
            r == (StakingVault { initialized: false, collection: None, index: 0 }),
    {
        StakingVault { initialized: false, collection: None, index: 0 }
    }

    /// Binds the calling pool and the position index, once, and mints the one unit
    /// of the vault's own token that serves as the position's receipt.
    pub fn initialize(&mut self, index: u128, context: &Context) -> (r: Result<
        CallResponse,
        StakingError,
    >)
        ensures
            old(self).initialized ==> r == Err::<CallResponse, StakingError>(
                StakingError::AlreadyInitialized,
            ) && *final(self) == *old(self),
            !old(self).initialized ==> *final(self) == (StakingVault {
                initialized: true,
                collection: Some(context.caller),
                index,
            }) && (r matches Ok(resp) && resp.alkanes@ == seq![
                AlkaneTransfer { id: context.myself, value: 1 },
            ] && resp.data@.len() == 0),
    {
        if self.initialized {
            return Err(StakingError::AlreadyInitialized);
        }
        self.initialized = true;
        self.collection = Some(context.caller);
        self.index = index;
        let mut alkanes: Vec<AlkaneTransfer> = Vec::new();
        alkanes.push(AlkaneTransfer { id: context.myself, value: 1 });
        proof {
            assert(alkanes@ =~= seq![AlkaneTransfer { id: context.myself, value: 1 }]);
        }
        Ok(CallResponse { alkanes, data: Vec::new() })
    }

    /// The owner check: exactly one incoming transfer, of the vault's own token,
    /// with at least one unit.
    pub fn only_owner(&self, context: &Context) -> (r: Result<(), StakingError>)
        ensures
            r == (match auth_failure(context.incoming_alkanes@, context.myself) {
                Some(e) => Err(e),
                None => Ok(()),
            }),
    {
        authenticate(&context.incoming_alkanes, context.myself)
    }

    /// The pool that created the vault.
    pub fn collection_ref(&self) -> (r: Result<AlkaneId, StakingError>)
        ensures
            r == (match self.collection {
                Some(c) => Ok(c),
                None => Err(StakingError::CollectionMissing),
            }),
    {
        match self.collection {
            Some(c) => Ok(c),
            None => Err(StakingError::CollectionMissing),
        }
    }

    pub fn index(&self) -> (r: u128)
        ensures
            r == self.index,
    {
        self.index
    }

    /// The first half of an unstake: authenticates the holder and says which call to
    /// make to the pool.
    pub fn prepare_unstake(&self, context: &Context) -> (r: Result<Cellpack, StakingError>)
        ensures
            match auth_failure(context.incoming_alkanes@, context.myself) {
                Some(e) => r == Err::<Cellpack, StakingError>(e),
                None => match self.collection {
                    None => r == Err::<Cellpack, StakingError>(StakingError::CollectionMissing),
                    Some(c) => r matches Ok(call) && call.target == c && call.inputs@ == seq![
                        POOL_UNSTAKE_OPCODE,
                        self.index,
                    ],
                },
            },
    {
        match self.only_owner(context) {
            Err(e) => {
                return Err(e);
            },
            Ok(()) => {},
        }
        let target = match self.collection_ref() {
            Err(e) => {
                return Err(e);
            },
            Ok(c) => c,
        };
        let mut inputs: Vec<u128> = Vec::new();
        inputs.push(POOL_UNSTAKE_OPCODE);
        inputs.push(self.index);
        proof {
            assert(inputs@ =~= seq![POOL_UNSTAKE_OPCODE, self.index]);
        }
        Ok(Cellpack { target, inputs })
    }

    /// Finishes an unstake from the pool's answer: forwards what the pool sent, and
    /// adds the vault's whole balance, `staking_balance`, of the asset that the
    /// answer's payload names, which is the staked principal.
    pub fn unstake(&self, context: &Context, pool_response: &CallResponse, staking_balance: u128) -> (r:
        Result<CallResponse, StakingError>)
        ensures
            match auth_failure(context.incoming_alkanes@, context.myself) {
                Some(e) => r == Err::<CallResponse, StakingError>(e),
                None => if self.collection.is_none() {
                    r == Err::<CallResponse, StakingError>(StakingError::CollectionMissing)
                } else if pool_response.data@.len() < 32 {
                    r == Err::<CallResponse, StakingError>(StakingError::MalformedPoolResponse)
                } else {
                    r matches Ok(resp) && resp.alkanes@ == unstake_transfers(
                        *pool_response,
                        staking_balance,
                    ) && resp.data@.len() == 0
                },
            },
    {
        match self.only_owner(context) {
            Err(e) => {
                return Err(e);
            },
            Ok(()) => {},
        }
        match self.collection_ref() {
            Err(e) => {
                return Err(e);
            },
            Ok(_) => {},
        }
        let staking_token_id = match AlkaneId::from_bytes(&pool_response.data) {
            None => {
                return Err(StakingError::MalformedPoolResponse);
            },
            Some(id) => id,
        };
        let mut alkanes = crate::parcel::copy_transfers(&pool_response.alkanes);
        alkanes.push(AlkaneTransfer { id: staking_token_id, value: staking_balance });
        Ok(CallResponse { alkanes, data: Vec::new() })
    }
}

} // verus!
