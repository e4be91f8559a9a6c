use vstd::prelude::*;

use crate::error::StakingError;
use crate::id::AlkaneId;
use crate::id::encodes_id;
use crate::parcel::{
    amount_of, authenticate, auth_failure, others, partition, matching, AlkaneTransfer, CallResponse,
    Cellpack, Context, Partition,
};

verus! {

/// Blocks after the end of the staking window during which stakers may claim:
/// seven days of 144 blocks.
pub const CLAIM_WINDOW_BLOCKS: u64 = 1008;

/// Domain of the identifiers of contracts spawned by a call.
pub const SPAWNED_BLOCK: u128 = 2;

/// Domain through which a call instantiates a template: the template's number is the
/// sequence part.
pub const TEMPLATE_BLOCK: u128 = 5;

/// Opcode that initializes a freshly created vault.
pub const VAULT_INITIALIZE_OPCODE: u128 = 0;

/// Configuration written once by `initialize`.
#[derive(Clone, Debug)]
pub struct PoolConfig {
    pub start_height: u64,
    pub end_height: u64,
    pub vault_template_id: u128,
    pub reward_token_id: AlkaneId,
    pub staking_token_id: AlkaneId,
    pub max_total_stake: u128,
    pub collection_name: String,
}

/// Aggregate counters, updated by every stake and unstake.
#[derive(Clone, Copy, Debug, PartialEq, Eq, Structural)]
pub struct PoolAccounting {
    /// Number of positions ever opened; also the last position index handed out.
    pub staking_count: u128,
    /// Sum of the durations of the live positions.
    pub total_stake_blocks: u128,
    /// Sum of the principals of the live positions.
    pub total_stake_amount: u128,
    /// Sum over the live positions of principal times duration.
    pub total_stake_weight: u128,
    /// Reward units supplied when the pool was initialized.
    pub total_reward_amount: u128,
}

/// The record of one stake event, kept after it is unstaked.
#[derive(Clone, Copy, Debug, PartialEq, Eq, Structural)]
pub struct Position {
    /// Height at which the position was opened.
    pub stake_block: u128,
    /// Principal.
    pub stake_amount: u128,
    /// Remaining duration at opening: end height minus `stake_block`.
    pub stake_blocks: u128,
    /// Reward paid out to the position; 0 until it claims.
    pub claimed_reward: u128,
    /// The position was unstaked before the end of the window.
    pub withdrawn: bool,
}

/// A position together with the identifier of the vault that owns it.
#[derive(Clone, Copy, Debug, PartialEq, Eq, Structural)]
pub struct PositionEntry {
    pub vault: AlkaneId,
    pub position: Position,
}

/// The pool: its configuration, its counters and its positions, keyed by vault.
#[derive(Clone, Debug)]
pub struct StakingPool {
    pub initialized: bool,
    pub config: PoolConfig,
    pub accounting: PoolAccounting,
    pub positions: Vec<PositionEntry>,
}

/// Principal times duration.
pub open spec fn weight(p: Position) -> int {
    p.stake_amount * p.stake_blocks
}

/// The position still takes part in the pool: it holds stake and was not withdrawn.
pub open spec fn is_live(p: Position) -> bool {
    p.stake_block != 0 && p.stake_amount != 0 && !p.withdrawn
}

/// Sum of `weight` over the entries not withdrawn.
pub open spec fn live_weight(s: Seq<PositionEntry>) -> int
    decreases s.len(),
{
    if s.len() == 0 {
        0
    } else {
        live_weight(s.drop_last()) + if s.last().position.withdrawn {
            0
        } else {
            weight(s.last().position)
        }
    }
}

/// Sum of the principals of the entries not withdrawn.
pub open spec fn live_amount(s: Seq<PositionEntry>) -> int
    decreases s.len(),
{
    if s.len() == 0 {
        0
    } else {
        live_amount(s.drop_last()) + if s.last().position.withdrawn {
            0
        } else {
            s.last().position.stake_amount as int
        }
    }
}

/// Sum of the durations of the entries not withdrawn.
pub open spec fn live_blocks(s: Seq<PositionEntry>) -> int
    decreases s.len(),
{
    if s.len() == 0 {
        0
    } else {
        live_blocks(s.drop_last()) + if s.last().position.withdrawn {
            0
        } else {
            s.last().position.stake_blocks as int
        }
    }
}

/// `x` clamped into the `u128` range.
pub open spec fn clamp(x: int) -> u128 {
    if x < 0 {
        0
    } else if x > u128::MAX {
        u128::MAX
    } else {
        x as u128
    }
}

/// The reward owed to a position of weight `w`, out of `total_reward`, when all live
/// positions weigh `total_weight`: `w * total_reward / total_weight` rounded down;
/// 0 where that product does not fit in a `u128` or where `total_weight` is 0.
pub open spec fn reward_share(w: int, total_reward: int, total_weight: int) -> int {
    if total_weight == 0 || w * total_reward > u128::MAX {
        0
    } else {
        w * total_reward / total_weight
    }
}

/// A height given as a `u128`, saturated into the `u64` range of block heights.
pub open spec fn clamp_height(h: u128) -> u64 {
    if h > u64::MAX {
        u64::MAX
    } else {
        h as u64
    }
}

/// Converts a configured height to a block height, saturating at `u64::MAX`.
fn height_of(h: u128) -> (r: u64)
    ensures
        r == clamp_height(h),
{
    if h > u64::MAX as u128 {
        u64::MAX
    } else {
        h as u64
    }
}

/// The identifier of the vault created with sequence number `sequence`.
pub open spec fn spawned_id(sequence: u128) -> AlkaneId {
    AlkaneId { block: SPAWNED_BLOCK, tx: sequence }
}

/// The call that creates a vault from the pool's template.
#[derive(Clone, Debug)]
pub struct StakeCall {
    /// Target and arguments: the template, the vault's initialize opcode and the
    /// new position's index.
    pub cellpack: Cellpack,
    /// The staking asset attached to the stake, which the vault will hold.
    pub transfer: Vec<AlkaneTransfer>,
}

/// What the pool reports about itself to a caller: that caller's position figures
/// where it has stake and principal recorded (withdrawn early or not), the pool's
/// figures otherwise.
#[derive(Clone, Copy, Debug, PartialEq, Eq, Structural)]
pub enum Attributes {
    Pool {
        start_block: u64,
        end_block: u64,
        staking_token: AlkaneId,
        reward_token: AlkaneId,
        max_total_stake: u128,
        total_stake_amount: u128,
        total_reward_amount: u128,
        claimable_reward_amount: u128,
    },
    Position {
        stake_block: u128,
        stake_amount: u128,
        stake_blocks: u128,
        total_reward: u128,
        claimed_reward: u128,
    },
}

impl StakingPool {
    /// No two entries share a vault.
    pub open spec fn wf(&self) -> bool {
        forall|i: int, j: int|
            0 <= i < j < self.positions@.len() ==> #[trigger] self.positions@[i].vault
                != #[trigger] self.positions@[j].vault
    }

    pub open spec fn has_position(&self, id: AlkaneId) -> bool {
        exists|i: int| 0 <= i < self.positions@.len() && #[trigger] self.positions@[i].vault == id
    }

    /// Where the position of vault `id` stands in `positions`.
    pub open spec fn index_of(&self, id: AlkaneId) -> int {
        choose|i: int| 0 <= i < self.positions@.len() && #[trigger] self.positions@[i].vault == id
    }

    pub open spec fn position_of(&self, id: AlkaneId) -> Option<Position> {
        if self.has_position(id) {
            Some(self.positions@[self.index_of(id)].position)
        } else {
            None
        }
    }

    /// Vault `id` has a position with stake and principal recorded, whether or not it
    /// was withdrawn early.
    pub open spec fn has_stake(&self, id: AlkaneId) -> bool {
        match self.position_of(id) {
            Some(p) => p.stake_block != 0 && p.stake_amount != 0,
            None => false,
        }
    }

    /// Vault `id` holds a live position.
    pub open spec fn is_staker(&self, id: AlkaneId) -> bool {
        match self.position_of(id) {
            Some(p) => is_live(p),
            None => false,
        }
    }

    /// The counters agree with the positions: each total is the sum over the
    /// positions that were not withdrawn.
    pub open spec fn accounting_matches(&self) -> bool {
        &&& self.accounting.total_stake_amount == live_amount(self.positions@)
        &&& self.accounting.total_stake_blocks == live_blocks(self.positions@)
        &&& self.accounting.total_stake_weight == live_weight(self.positions@)
    }

    /// The reward computed for vault `id`; 0 where it has no position.
    pub open spec fn entitlement(&self, id: AlkaneId) -> int {
        match self.position_of(id) {
            Some(p) => reward_share(
                weight(p),
                self.accounting.total_reward_amount as int,
                self.accounting.total_stake_weight as int,
            ),
            None => 0,
        }
    }

    /// The rejection, if any, of a stake of `amount` at `height`, in the order the
    /// checks are made.
    pub open spec fn stake_rejection(&self, height: u64, amount: int) -> Option<StakingError> {
        if height < self.config.start_height {
            Some(StakingError::StakingNotStarted)
        } else if height + 2 > self.config.end_height {
            Some(StakingError::StakingEnded)
        } else if self.accounting.total_stake_amount + amount > self.config.max_total_stake {
            Some(StakingError::ExceedsMaxStake)
        } else {
            None
        }
    }

    /// The height from which the owner may withdraw and stakers no longer claim.
    pub open spec fn claim_deadline(&self) -> int {
        self.config.end_height + CLAIM_WINDOW_BLOCKS
    }

    /// The position that a stake of `amount` at `height` opens.
    pub open spec fn opened_position(&self, height: u64, amount: u128) -> Position {
        Position {
            stake_block: height as u128,
            stake_amount: amount,
            stake_blocks: (self.config.end_height - height) as u128,
            claimed_reward: 0,
            withdrawn: false,
        }
    }

    /// `new` is this pool after a stake of `amount` at `height` bound to `vault`: the
    /// position is appended, the position count and the three totals grow (each
    /// saturating), nothing else changes.
    pub open spec fn stake_recorded(
        &self,
        new: StakingPool,
        height: u64,
        amount: u128,
        vault: AlkaneId,
    ) -> bool {
        let blocks = self.config.end_height - height;
        &&& new.initialized == self.initialized
        &&& new.config == self.config
        &&& new.positions@ == self.positions@.push(
            PositionEntry { vault, position: self.opened_position(height, amount) },
        )
        &&& new.accounting == PoolAccounting {
            staking_count: clamp(self.accounting.staking_count + 1),
            total_stake_blocks: clamp(self.accounting.total_stake_blocks + blocks),
            total_stake_amount: clamp(self.accounting.total_stake_amount + amount),
            total_stake_weight: clamp(self.accounting.total_stake_weight + blocks * amount),
            total_reward_amount: self.accounting.total_reward_amount,
        }
    }

    /// `new` is this pool after the position of `id` was withdrawn early: the
    /// position is marked withdrawn, its fields kept, and its principal, duration
    /// and weight leave the totals (each stopping at 0).
    pub open spec fn withdrawal_recorded(&self, new: StakingPool, id: AlkaneId) -> bool {
        let i = self.index_of(id);
        let p = self.positions@[i].position;
        &&& new.initialized == self.initialized
        &&& new.config == self.config
        &&& new.positions@ == self.positions@.update(
            i,
            PositionEntry { vault: id, position: Position { withdrawn: true, ..p } },
        )
        &&& new.accounting == PoolAccounting {
            total_stake_blocks: clamp(self.accounting.total_stake_blocks - p.stake_blocks),
            total_stake_amount: clamp(self.accounting.total_stake_amount - p.stake_amount),
            total_stake_weight: clamp(self.accounting.total_stake_weight - weight(p)),
            ..self.accounting
        }
    }

    /// What a claim by `id` pays now: its entitlement, unless it was paid before.
    pub open spec fn claimable(&self, id: AlkaneId) -> int {
        match self.position_of(id) {
            Some(p) => if p.claimed_reward == 0 {
                self.entitlement(id)
            } else {
                0
            },
            None => 0,
        }
    }

    /// `new` is this pool after `id` claimed `paid`: a positive payment is recorded
    /// in the position, and nothing else changes.
    pub open spec fn claim_recorded(&self, new: StakingPool, id: AlkaneId, paid: int) -> bool {
        let i = self.index_of(id);
        let p = self.positions@[i].position;
        if paid == 0 {
            new == *self
        } else {
            &&& new.initialized == self.initialized
            &&& new.config == self.config
            &&& new.accounting == self.accounting
            &&& new.positions@ == self.positions@.update(
                i,
                PositionEntry { vault: id, position: Position { claimed_reward: paid as u128, ..p } },
            )
        }
    }

    /// Finds the entry of vault `id`.
    fn find_position(&self, id: AlkaneId) -> (r: Option<usize>)
        requires
            self.wf(),
        ensures
            r.is_none() <==> !self.has_position(id),
            r matches Some(i) ==> i == self.index_of(id) && i < self.positions@.len()
                && self.positions@[i as int].vault == id,
    {
        let mut i: usize = 0;
        while i < self.positions.len()
            invariant
                self.wf(),
                i <= self.positions@.len(),
                forall|j: int| 0 <= j < i ==> #[trigger] self.positions@[j].vault != id,
            decreases self.positions@.len() - i,
        {
            if self.positions[i].vault == id {
                proof {
                    self.lemma_index_of(i as int);
                }
                return Some(i);
            }
            i = i + 1;
        }
        None
    }

    /// The entry at `i` is the one that `index_of` names.
    pub proof fn lemma_index_of(&self, i: int)
        requires
            self.wf(),
            0 <= i < self.positions@.len(),
        ensures
            self.has_position(self.positions@[i].vault),
            self.index_of(self.positions@[i].vault) == i,
    {
        let id = self.positions@[i].vault;
        assert(self.positions@[i].vault == id);
        let j = self.index_of(id);
        if j != i {
            if j < i {
                assert(self.positions@[j].vault != self.positions@[i].vault);
            } else {
                assert(self.positions@[i].vault != self.positions@[j].vault);
            }
        }
    }

    /// The reward computed for the position of vault `caller`: its weight times the
    /// reward pool, divided by the total weight; 0 where it has no position.
    pub fn calc_reward(&self, caller: &AlkaneId) -> (r: u128)
        requires
            self.wf(),
        ensures
            r == self.entitlement(*caller),
    {
        match self.find_position(*caller) {
            None => 0,
            Some(i) => {
                let p = self.positions[i].position;
                self.reward_for(p.stake_blocks, p.stake_amount)
            },
        }
    }

    fn reward_for(&self, stake_blocks: u128, stake_amount: u128) -> (r: u128)
        ensures
            r == reward_share(
                stake_amount * stake_blocks,
                self.accounting.total_reward_amount as int,
                self.accounting.total_stake_weight as int,
            ),
    {
        let total_reward = self.accounting.total_reward_amount;
        let total_weight = self.accounting.total_stake_weight;
        if stake_blocks == 0 || stake_amount == 0 {
            proof {
                assert(stake_amount * stake_blocks == 0) by (nonlinear_arith)
                    requires
                        stake_blocks == 0 || stake_amount == 0,
                ;
                assert(0 * total_reward == 0);
                if total_weight > 0 {
                    assert(0int / (total_weight as int) == 0) by (nonlinear_arith)
                        requires
                            total_weight > 0,
                    ;
                }
            }
            return 0;
        }
        match stake_blocks.checked_mul(stake_amount) {
            None => {
                proof {
                    let w = stake_amount * stake_blocks;
                    assert(w == stake_blocks * stake_amount) by (nonlinear_arith)
                        requires
                            w == stake_amount * stake_blocks,
                    ;
                    if total_reward > 0 {
                        assert(w * total_reward >= w) by (nonlinear_arith)
                            requires
                                total_reward >= 1,
                                w >= 0,
                        ;
                    } else {
                        assert(w * total_reward == 0) by (nonlinear_arith)
                            requires
                                total_reward == 0,
                        ;
                        if total_weight > 0 {
                            assert(0int / (total_weight as int) == 0) by (nonlinear_arith)
                                requires
                                    total_weight > 0,
                            ;
                        }
                    }
                }
                0
            },
            Some(user_weight) => {
                proof {
                    assert(user_weight == stake_amount * stake_blocks) by (nonlinear_arith)
                        requires
                            user_weight == stake_blocks * stake_amount,
                    ;
                }
                match user_weight.checked_mul(total_reward) {
                    None => 0,
                    Some(product) => {
                        if total_weight == 0 {
                            0
                        } else {
                            product / total_weight
                        }
                    },
                }
            },
        }
    }

    /// The owner check: exactly one incoming transfer, of the pool's own token, with
    /// at least one unit.
    pub fn only_owner(&self, context: &Context) -> (r: Result<(), StakingError>)
        ensures
            r == (match auth_failure(context.incoming_alkanes@, context.myself) {
                Some(e) => Err(e),
                None => Ok(()),
            }),
    {
        authenticate(&context.incoming_alkanes, context.myself)
    }

    /// Checks a stake of `stake_amount` at `height` against the staking window,
    /// which closes two blocks before the end height, and against the cap.
    pub fn validate_staking_parameters(&self, height: u64, stake_amount: u128) -> (r: Result<
        (),
        StakingError,
    >)
        ensures
            r == (match self.stake_rejection(height, stake_amount as int) {
                Some(e) => Err(e),
                None => Ok(()),
            }),
    {
        if height < self.config.start_height {
            return Err(StakingError::StakingNotStarted);
        }
        if (height as u128) + 2 > self.config.end_height as u128 {
            return Err(StakingError::StakingEnded);
        }
        match self.accounting.total_stake_amount.checked_add(stake_amount) {
            None => Err(StakingError::ExceedsMaxStake),
            Some(total) => {
                if total > self.config.max_total_stake {
                    Err(StakingError::ExceedsMaxStake)
                } else {
                    Ok(())
                }
            },
        }
    }

    /// The next position index: one past the position count, saturating.
    pub fn get_next_staking_index(&self) -> (r: u128)
        ensures
            r == clamp(self.accounting.staking_count + 1),
    {
        self.accounting.staking_count.saturating_add(1)
    }

    /// Splits the assets attached to a stake into the staking asset and the rest, and
    /// checks the stake they make; on success also gives the staked amount.
    fn check_stake(&self, height: u64, context: &Context) -> (r: Result<
        (Partition, u128),
        StakingError,
    >)
        ensures
            ({
                let incoming = context.incoming_alkanes@;
                let staking = self.config.staking_token_id;
                let amount = amount_of(incoming, staking);
                match self.stake_rejection(height, amount as int) {
                    Some(e) => r == Err::<(Partition, u128), StakingError>(e),
                    None => r matches Ok((split, total)) && total == amount && split.matching@
                        == matching(incoming, staking) && split.others@ == others(
                        incoming,
                        staking,
                    ),
                }
            }),
    {
        let split = partition(&context.incoming_alkanes, self.config.staking_token_id);
        let amount = match split.total {
            Some(t) => t,
            None => u128::MAX,
        };
        match self.validate_staking_parameters(height, amount) {
            Err(e) => {
                return Err(e);
            },
            Ok(()) => {},
        }
        match split.total {
            None => Err(StakingError::ExceedsMaxStake),
            Some(total) => Ok((split, total)),
        }
    }

    /// The first half of a stake: checks it and says which vault to create, with
    /// which index, holding which assets.
    pub fn prepare_stake(&self, height: u64, context: &Context) -> (r: Result<StakeCall, StakingError>)
        ensures
            ({
                let amount = amount_of(context.incoming_alkanes@, self.config.staking_token_id);
                match self.stake_rejection(height, amount as int) {
                    Some(e) => r == Err::<StakeCall, StakingError>(e),
                    None => r matches Ok(call) && call.cellpack.target == (AlkaneId {
                        block: TEMPLATE_BLOCK,
                        tx: self.config.vault_template_id,
                    }) && call.cellpack.inputs@ == seq![
                        VAULT_INITIALIZE_OPCODE,
                        clamp(self.accounting.staking_count + 1),
                    ] && call.transfer@ == matching(
                        context.incoming_alkanes@,
                        self.config.staking_token_id,
                    ),
                }
            }),
    {
        let (split, _) = match self.check_stake(height, context) {
            Err(e) => {
                return Err(e);
            },
            Ok(checked) => checked,
        };
        let index = self.get_next_staking_index();
        let mut inputs: Vec<u128> = Vec::new();
        inputs.push(VAULT_INITIALIZE_OPCODE);
        inputs.push(index);
        proof {
            assert(inputs@ =~= seq![VAULT_INITIALIZE_OPCODE, index]);
        }
        let target = AlkaneId { block: TEMPLATE_BLOCK, tx: self.config.vault_template_id };
        Ok(StakeCall { cellpack: Cellpack { target, inputs }, transfer: split.matching })
    }

    /// Records a stake, once the vault has been created: `vault_sequence` is the
    /// sequence number the vault was created under, `created` what the creating call
    /// sent back. Opens a position keyed by the vault, with the staking asset attached
    /// to the call as principal and the blocks left until the end height as duration,
    /// and adds it to the totals. Hands back the vault's first asset together with
    /// every attached asset that is not the staking asset.
    pub fn stake(
        &mut self,
        height: u64,
        context: &Context,
        vault_sequence: u128,
        created: &Vec<AlkaneTransfer>,
    ) -> (r: Result<CallResponse, StakingError>)
        requires
            old(self).wf(),
        ensures
            final(self).wf(),
            r is Err ==> *final(self) == *old(self),
            ({
                let incoming = context.incoming_alkanes@;
                let staking = old(self).config.staking_token_id;
                let amount = amount_of(incoming, staking);
                let vault = spawned_id(vault_sequence);
                match old(self).stake_rejection(height, amount as int) {
                    Some(e) => r == Err::<CallResponse, StakingError>(e),
                    None => if created@.len() == 0 {
                        r == Err::<CallResponse, StakingError>(StakingError::VaultCreationFailed)
                    } else if old(self).has_position(vault) {
                        r == Err::<CallResponse, StakingError>(StakingError::VaultAlreadyBound)
                    } else {
                        &&& r matches Ok(resp) && resp.alkanes@ == others(incoming, staking).push(
                            created@[0],
                        ) && resp.data@.len() == 0
                        &&& old(self).stake_recorded(*final(self), height, amount as u128, vault)
                    },
                }
            }),
    {
        let (split, amount) = match self.check_stake(height, context) {
            Err(e) => {
                return Err(e);
            },
            Ok(checked) => checked,
        };
        if created.len() == 0 {
            return Err(StakingError::VaultCreationFailed);
        }
        let vault = AlkaneId { block: SPAWNED_BLOCK, tx: vault_sequence };
        if self.find_position(vault).is_some() {
            return Err(StakingError::VaultAlreadyBound);
        }
        let ghost old_pool = *self;
        let index = self.get_next_staking_index();
        let stake_blocks: u128 = (self.config.end_height - height) as u128;
        let position = Position {
            stake_block: height as u128,
            stake_amount: amount,
            stake_blocks,
            claimed_reward: 0,
            withdrawn: false,
        };
        self.positions.push(PositionEntry { vault, position });
        self.accounting.staking_count = index;
        self.accounting.total_stake_blocks = self.accounting.total_stake_blocks.saturating_add(
            stake_blocks,
        );
        self.accounting.total_stake_amount = self.accounting.total_stake_amount + amount;
        let user_weight = match stake_blocks.checked_mul(amount) {
            Some(w) => w,
            None => u128::MAX,
        };
        self.accounting.total_stake_weight = self.accounting.total_stake_weight.saturating_add(
            user_weight,
        );
        proof {
            let w = stake_blocks * amount;
            if w > u128::MAX {
                assert(old_pool.accounting.total_stake_weight + w > u128::MAX);
            }
            assert forall|i: int, j: int|
                0 <= i < j < self.positions@.len() implies #[trigger] self.positions@[i].vault
                != #[trigger] self.positions@[j].vault by {
                if j == self.positions@.len() - 1 {
                    assert(old_pool.positions@[i].vault != vault);
                } else {
                    assert(old_pool.positions@[i].vault != old_pool.positions@[j].vault);
                }
            }
        }
        let mut alkanes = split.others;
        alkanes.push(created[0]);
        Ok(CallResponse { alkanes, data: Vec::new() })
    }

    /// Unstakes the position of the calling vault. Before the end height this is an
    /// early withdrawal: the position leaves the totals and earns nothing. From the
    /// end height until the claim deadline the position claims its reward, once.
    /// After the deadline nothing is paid. The attached assets always go back, and
    /// the payload is the staking asset's identifier.
    pub fn unstake(&mut self, height: u64, context: &Context) -> (r: Result<CallResponse, StakingError>)
        requires
            old(self).wf(),
        ensures
            final(self).wf(),
            !old(self).is_staker(context.caller) ==> r == Err::<CallResponse, StakingError>(
                StakingError::NotAStaker,
            ) && *final(self) == *old(self),
            old(self).is_staker(context.caller) ==> (r matches Ok(resp) && encodes_id(
                resp.data@,
                old(self).config.staking_token_id,
            ) && ({
                let incoming = context.incoming_alkanes@;
                let caller = context.caller;
                let paid = old(self).claimable(caller);
                if height < old(self).config.end_height {
                    &&& old(self).withdrawal_recorded(*final(self), caller)
                    &&& resp.alkanes@ == incoming
                } else if height < old(self).claim_deadline() {
                    &&& old(self).claim_recorded(*final(self), caller, paid)
                    &&& resp.alkanes@ == if paid > 0 {
                        incoming.push(
                            AlkaneTransfer { id: old(self).config.reward_token_id, value: paid as u128 },
                        )
                    } else {
                        incoming
                    }
                } else {
                    &&& *final(self) == *old(self)
                    &&& resp.alkanes@ == incoming
                }
            })),
    {
        let caller = context.caller;
        let i = match self.find_position(caller) {
            None => {
                return Err(StakingError::NotAStaker);
            },
            Some(i) => i,
        };
        let entry = self.positions[i];
        let p = entry.position;
        if p.stake_block == 0 || p.stake_amount == 0 || p.withdrawn {
            return Err(StakingError::NotAStaker);
        }
        let ghost old_pool = *self;
        let mut alkanes = crate::parcel::copy_transfers(&context.incoming_alkanes);
        let end_height = self.config.end_height;
        if height >= end_height {
            if (height as u128) < (end_height as u128) + (CLAIM_WINDOW_BLOCKS as u128) {
                if p.claimed_reward == 0 {
                    let reward = self.reward_for(p.stake_blocks, p.stake_amount);
                    if reward > 0 {
                        alkanes.push(AlkaneTransfer { id: self.config.reward_token_id, value: reward });
                        self.positions.set(
                            i,
                            PositionEntry { vault: caller, position: Position { claimed_reward: reward, ..p } },
                        );
                    }
                }
            }
        } else {
            let blocks = self.accounting.total_stake_blocks;
            self.accounting.total_stake_blocks = blocks.saturating_sub(p.stake_blocks);
            let amount = self.accounting.total_stake_amount;
            self.accounting.total_stake_amount = amount.saturating_sub(p.stake_amount);
            let user_weight = match p.stake_blocks.checked_mul(p.stake_amount) {
                Some(w) => w,
                None => u128::MAX,
            };
            let total_weight = self.accounting.total_stake_weight;
            self.accounting.total_stake_weight = total_weight.saturating_sub(user_weight);
            self.positions.set(
                i,
                PositionEntry { vault: caller, position: Position { withdrawn: true, ..p } },
            );
            proof {
                let w = weight(p);
                assert(w == p.stake_blocks * p.stake_amount) by (nonlinear_arith)
                    requires
                        w == p.stake_amount * p.stake_blocks,
                ;
            }
        }
        proof {
            assert forall|a: int, b: int|
                0 <= a < b < self.positions@.len() implies #[trigger] self.positions@[a].vault
                != #[trigger] self.positions@[b].vault by {
                assert(old_pool.positions@[a].vault != old_pool.positions@[b].vault);
            }
        }
        Ok(CallResponse { alkanes, data: self.config.staking_token_id.to_bytes() })
    }

    /// The owner's sweep: once the claim deadline has passed, sends the pool's whole
    /// balance of the reward asset, `reward_balance`, to the owner, with the
    /// attached assets.
    pub fn withdraw(&self, height: u64, context: &Context, reward_balance: u128) -> (r: Result<
        CallResponse,
        StakingError,
    >)
        ensures
            ({
                let incoming = context.incoming_alkanes@;
                match auth_failure(incoming, context.myself) {
                    Some(e) => r == Err::<CallResponse, StakingError>(e),
                    None => if height < self.claim_deadline() {
                        r == Err::<CallResponse, StakingError>(StakingError::ClaimWindowOpen)
                    } else {
                        r matches Ok(resp) && resp.alkanes@ == incoming.push(
                            AlkaneTransfer { id: self.config.reward_token_id, value: reward_balance },
                        ) && resp.data@.len() == 0
                    },
                }
            }),
    {
        match self.only_owner(context) {
            Err(e) => {
                return Err(e);
            },
            Ok(()) => {},
        }
        let deadline: u128 = (self.config.end_height as u128) + (CLAIM_WINDOW_BLOCKS as u128);
        if (height as u128) < deadline {
            return Err(StakingError::ClaimWindowOpen);
        }
        let mut alkanes = crate::parcel::copy_transfers(&context.incoming_alkanes);
        alkanes.push(AlkaneTransfer { id: self.config.reward_token_id, value: reward_balance });
        Ok(CallResponse { alkanes, data: Vec::new() })
    }

    /// Configures the pool, once. Where the start height, the end height or the
    /// template is 0 nothing is configured and the attached assets go back. Otherwise
    /// the configuration is stored (heights above `u64::MAX` saturate, so a non-zero
    /// height never becomes 0), the collection is named after the staking asset,
    /// the attached reward asset becomes the reward pool (saturating), the counters
    /// start at 0, and one unit of the pool's own token, which authenticates the owner,
    /// goes out with the attached assets that are not the reward asset.
    pub fn initialize(
        &mut self,
        start_block: u128,
        end_block: u128,
        vault_template_id: u128,
        reward_token_id: AlkaneId,
        staking_token_id: AlkaneId,
        max_total_stake: u128,
        context: &Context,
        staking_token_name: &str,
    ) -> (r: Result<CallResponse, StakingError>)
        requires
            old(self).wf(),
        ensures
            final(self).wf(),
            old(self).initialized ==> r == Err::<CallResponse, StakingError>(
                StakingError::AlreadyInitialized,
            ) && *final(self) == *old(self),
            !old(self).initialized ==> final(self).initialized && final(self).positions@
                == old(self).positions@,
            !old(self).initialized && (start_block == 0 || end_block == 0 || vault_template_id == 0)
                ==> (r matches Ok(resp) && resp.alkanes@ == context.incoming_alkanes@
                && resp.data@.len() == 0) && final(self).config == old(self).config
                && final(self).accounting == old(self).accounting,
            !old(self).initialized && start_block != 0 && end_block != 0 && vault_template_id != 0
                ==> (r matches Ok(resp) && resp.alkanes@ == others(
                context.incoming_alkanes@,
                reward_token_id,
            ).push(AlkaneTransfer { id: context.myself, value: 1 }) && resp.data@.len() == 0) && ({
                let c = final(self).config;
                &&& c.start_height == clamp_height(start_block)
                &&& c.end_height == clamp_height(end_block)
                &&& c.vault_template_id == vault_template_id
                &&& c.reward_token_id == reward_token_id
                &&& c.staking_token_id == staking_token_id
                &&& c.max_total_stake == max_total_stake
                &&& c.collection_name@ == staking_token_name@ + " Staking"@
            }) && final(self).accounting == (PoolAccounting {
                staking_count: 0,
                total_stake_blocks: 0,
                total_stake_amount: 0,
                total_stake_weight: 0,
                total_reward_amount: clamp(amount_of(context.incoming_alkanes@, reward_token_id) as int),
            }),
    {
        if self.initialized {
            return Err(StakingError::AlreadyInitialized);
        }
        self.initialized = true;
        if start_block == 0 || end_block == 0 || vault_template_id == 0 {
            let alkanes = crate::parcel::copy_transfers(&context.incoming_alkanes);
            return Ok(CallResponse { alkanes, data: Vec::new() });
        }
        let name = String::from_str(staking_token_name).concat(" Staking");
        self.config = PoolConfig {
            start_height: height_of(start_block),
            end_height: height_of(end_block),
            vault_template_id,
            reward_token_id,
            staking_token_id,
            max_total_stake,
            collection_name: name,
        };
        let split = partition(&context.incoming_alkanes, reward_token_id);
        let total_reward_amount = match split.total {
            Some(t) => t,
            None => u128::MAX,
        };
        self.accounting = PoolAccounting {
            staking_count: 0,
            total_stake_blocks: 0,
            total_stake_amount: 0,
            total_stake_weight: 0,
            total_reward_amount,
        };
        let mut alkanes = split.others;
        alkanes.push(AlkaneTransfer { id: context.myself, value: 1 });
        Ok(CallResponse { alkanes, data: Vec::new() })
    }

    /// A pool that has not been initialized: no configuration, counters at 0, no
    /// positions.
    pub fn new() -> (r: StakingPool)
        ensures
            r.wf(),
            !r.initialized,
            r.positions@.len() == 0,
            r.accounting == (PoolAccounting {
                staking_count: 0,
                total_stake_blocks: 0,
                total_stake_amount: 0,
                total_stake_weight: 0,
                total_reward_amount: 0,
            }),
            r.config.start_height == 0,
            r.config.end_height == 0,
            r.config.vault_template_id == 0,
            r.config.max_total_stake == 0,
            r.config.reward_token_id == (AlkaneId { block: 0, tx: 0 }),
            r.config.staking_token_id == (AlkaneId { block: 0, tx: 0 }),
            r.config.collection_name@.len() == 0,
    {
        StakingPool {
            initialized: false,
            config: PoolConfig {
                start_height: 0,
                end_height: 0,
                vault_template_id: 0,
                reward_token_id: AlkaneId { block: 0, tx: 0 },
                staking_token_id: AlkaneId { block: 0, tx: 0 },
                max_total_stake: 0,
                collection_name: String::new(),
            },
            accounting: PoolAccounting {
                staking_count: 0,
                total_stake_blocks: 0,
                total_stake_amount: 0,
                total_stake_weight: 0,
                total_reward_amount: 0,
            },
            positions: Vec::new(),
        }
    }

    /// Puts a stored position back into the pool, replacing the one of the same
    /// vault if there is one.
    pub fn restore_position(&mut self, vault: AlkaneId, position: Position)
        requires
            old(self).wf(),
        ensures
            final(self).wf(),
            final(self).initialized == old(self).initialized,
            final(self).config == old(self).config,
            final(self).accounting == old(self).accounting,
            final(self).position_of(vault) == Some(position),
            forall|id: AlkaneId| id != vault ==> final(self).position_of(id) == old(self).position_of(id),
    {
        let ghost old_pool = *self;
        let entry = PositionEntry { vault, position };
        match self.find_position(vault) {
            Some(i) => {
                self.positions.set(i, entry);
                proof {
                    assert forall|a: int, b: int|
                        0 <= a < b < self.positions@.len() implies #[trigger] self.positions@[a].vault
                        != #[trigger] self.positions@[b].vault by {
                        assert(old_pool.positions@[a].vault != old_pool.positions@[b].vault);
                    }
                    self.lemma_index_of(i as int);
                    assert forall|id: AlkaneId| id != vault implies self.position_of(id)
                        == old_pool.position_of(id) by {
                        if old_pool.has_position(id) {
                            let k = old_pool.index_of(id);
                            old_pool.lemma_index_of(k);
                            assert(self.positions@[k].vault == id);
                            self.lemma_index_of(k);
                        }
                        if self.has_position(id) {
                            let k = self.index_of(id);
                            assert(old_pool.positions@[k].vault == id);
                        }
                    }
                }
            },
            None => {
                self.positions.push(entry);
                proof {
                    assert forall|a: int, b: int|
                        0 <= a < b < self.positions@.len() implies #[trigger] self.positions@[a].vault
                        != #[trigger] self.positions@[b].vault by {
                        if b < old_pool.positions@.len() {
                            assert(old_pool.positions@[a].vault != old_pool.positions@[b].vault);
                        } else {
                            assert(old_pool.positions@[a].vault != vault);
                        }
                    }
                    self.lemma_index_of(old_pool.positions@.len() as int);
                    assert forall|id: AlkaneId| id != vault implies self.position_of(id)
                        == old_pool.position_of(id) by {
                        if old_pool.has_position(id) {
                            let k = old_pool.index_of(id);
                            old_pool.lemma_index_of(k);
                            assert(self.positions@[k].vault == id);
                            self.lemma_index_of(k);
                        }
                        if self.has_position(id) {
                            let k = self.index_of(id);
                            assert(old_pool.positions@[k].vault == id);
                        }
                    }
                }
            },
        }
    }

    /// The position of vault `id`, if it has one.
    pub fn get_position(&self, id: &AlkaneId) -> (r: Option<Position>)
        requires
            self.wf(),
        ensures
            r == self.position_of(*id),
    {
        match self.find_position(*id) {
            Some(i) => Some(self.positions[i].position),
            None => None,
        }
    }

    /// What the pool reports to `caller`; `reward_balance` is the pool's current
    /// balance of the reward asset.
    pub fn get_attributes(&self, caller: &AlkaneId, reward_balance: u128) -> (r: Attributes)
        requires
            self.wf(),
        ensures
            !self.has_stake(*caller) ==> r == (Attributes::Pool {
                start_block: self.config.start_height,
                end_block: self.config.end_height,
                staking_token: self.config.staking_token_id,
                reward_token: self.config.reward_token_id,
                max_total_stake: self.config.max_total_stake,
                total_stake_amount: self.accounting.total_stake_amount,
                total_reward_amount: self.accounting.total_reward_amount,
                claimable_reward_amount: reward_balance,
            }),
            self.has_stake(*caller) ==> ({
                let p = self.position_of(*caller)->Some_0;
                r == Attributes::Position {
                    stake_block: p.stake_block,
                    stake_amount: p.stake_amount,
                    stake_blocks: p.stake_blocks,
                    total_reward: self.entitlement(*caller) as u128,
                    claimed_reward: p.claimed_reward,
                }
            }),
    {
        match self.find_position(*caller) {
            Some(i) => {
                let p = self.positions[i].position;
                if p.stake_block != 0 && p.stake_amount != 0 {
                    return Attributes::Position {
                        stake_block: p.stake_block,
                        stake_amount: p.stake_amount,
                        stake_blocks: p.stake_blocks,
                        total_reward: self.reward_for(p.stake_blocks, p.stake_amount),
                        claimed_reward: p.claimed_reward,
                    };
                }
            },
            None => {},
        }
        Attributes::Pool {
            start_block: self.config.start_height,
            end_block: self.config.end_height,
            staking_token: self.config.staking_token_id,
            reward_token: self.config.reward_token_id,
            max_total_stake: self.config.max_total_stake,
            total_stake_amount: self.accounting.total_stake_amount,
            total_reward_amount: self.accounting.total_reward_amount,
            claimable_reward_amount: reward_balance,
        }
    }

    /// Number of positions ever opened.
    pub fn get_staking_count(&self) -> (r: u128)
        ensures
            r == self.accounting.staking_count,
    {
        self.accounting.staking_count
    }

    pub fn get_start_height(&self) -> (r: u64)
        ensures
            r == self.config.start_height,
    {
        self.config.start_height
    }

    pub fn get_end_height(&self) -> (r: u64)
        ensures
            r == self.config.end_height,
    {
        self.config.end_height
    }

    pub fn get_total_stake_weight(&self) -> (r: u128)
        ensures
            r == self.accounting.total_stake_weight,
    {
        self.accounting.total_stake_weight
    }

    pub fn get_total_stake_amount(&self) -> (r: u128)
        ensures
            r == self.accounting.total_stake_amount,
    {
        self.accounting.total_stake_amount
    }

    pub fn get_total_stake_blocks(&self) -> (r: u128)
        ensures
            r == self.accounting.total_stake_blocks,
    {
        self.accounting.total_stake_blocks
    }

    pub fn get_total_reward_amount(&self) -> (r: u128)
        ensures
            r == self.accounting.total_reward_amount,
    {
        self.accounting.total_reward_amount
    }

    pub fn get_max_total_stake(&self) -> (r: u128)
        ensures
            r == self.config.max_total_stake,
    {
        self.config.max_total_stake
    }

    pub fn get_vault_template_id(&self) -> (r: u128)
        ensures
            r == self.config.vault_template_id,
    {
        self.config.vault_template_id
    }

    pub fn get_reward_token_id(&self) -> (r: AlkaneId)
        ensures
            r == self.config.reward_token_id,
    {
        self.config.reward_token_id
    }

    pub fn get_staking_token_id(&self) -> (r: AlkaneId)
        ensures
            r == self.config.staking_token_id,
    {
        self.config.staking_token_id
    }

    /// The collection's display name, which is also the pool's name.
    pub fn get_collection_name(&self) -> (r: String)
        ensures
            r@ == self.config.collection_name@,
    {
        self.config.collection_name.clone()
    }
}

} // verus!
