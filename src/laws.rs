use vstd::prelude::*;

use crate::error::StakingError;
use crate::id::AlkaneId;
use crate::parcel::CallResponse;
use crate::vault::unstake_transfers;
use crate::pool::{
    live_amount, live_blocks, live_weight, reward_share, weight, Position, PositionEntry,
    StakingPool,
};

verus! {

/// What a position adds to the live weight.
pub open spec fn weight_part(e: PositionEntry) -> int {
    if e.position.withdrawn {
        0
    } else {
        weight(e.position)
    }
}

pub open spec fn amount_part(e: PositionEntry) -> int {
    if e.position.withdrawn {
        0
    } else {
        e.position.stake_amount as int
    }
}

pub open spec fn blocks_part(e: PositionEntry) -> int {
    if e.position.withdrawn {
        0
    } else {
        e.position.stake_blocks as int
    }
}

proof fn lemma_weight_nonneg(p: Position)
    ensures
        weight(p) >= 0,
{
    assert(p.stake_amount * p.stake_blocks >= 0) by (nonlinear_arith);
}

proof fn lemma_live_nonneg(s: Seq<PositionEntry>)
    ensures
        live_weight(s) >= 0,
        live_amount(s) >= 0,
        live_blocks(s) >= 0,
    decreases s.len(),
{
    if s.len() > 0 {
        lemma_live_nonneg(s.drop_last());
        lemma_weight_nonneg(s.last().position);
    }
}

/// Replacing the entry at `i` changes each live sum by the difference of the two
/// entries' parts.
proof fn lemma_live_update(s: Seq<PositionEntry>, i: int, e: PositionEntry)
    requires
        0 <= i < s.len(),
    ensures
        live_weight(s.update(i, e)) == live_weight(s) - weight_part(s[i]) + weight_part(e),
        live_amount(s.update(i, e)) == live_amount(s) - amount_part(s[i]) + amount_part(e),
        live_blocks(s.update(i, e)) == live_blocks(s) - blocks_part(s[i]) + blocks_part(e),
    decreases s.len(),
{
    let t = s.update(i, e);
    if i == s.len() - 1 {
        assert(t.drop_last() =~= s.drop_last());
    } else {
        assert(t.drop_last() =~= s.drop_last().update(i, e));
        lemma_live_update(s.drop_last(), i, e);
    }
}

/// Each live sum is at least the part of any one entry.
proof fn lemma_part_within_live(s: Seq<PositionEntry>, i: int)
    requires
        0 <= i < s.len(),
    ensures
        weight_part(s[i]) <= live_weight(s),
        amount_part(s[i]) <= live_amount(s),
        blocks_part(s[i]) <= live_blocks(s),
{
    let e = s[i];
    let p = e.position;
    let cleared = PositionEntry { vault: e.vault, position: Position { withdrawn: true, ..p } };
    lemma_live_update(s, i, cleared);
    lemma_live_nonneg(s.update(i, cleared));
}

/// One change of a pool's positions and counters, as the pool's operations make it.
pub enum PoolStep {
    /// A stake of `amount` at `height`, bound to the fresh vault `vault`.
    Stake { height: u64, amount: u128, vault: AlkaneId },
    /// An early unstake of the live position of `vault`.
    EarlyUnstake { vault: AlkaneId },
    /// A claim of `paid` by the live position of `vault`.
    Claim { vault: AlkaneId, paid: int },
}

/// `new` is `old` after `step`, under the conditions on which the pool takes it.
pub open spec fn step_taken(old: StakingPool, new: StakingPool, step: PoolStep) -> bool {
    match step {
        PoolStep::Stake { height, amount, vault } => {
            &&& old.stake_rejection(height, amount as int) is None
            &&& !old.has_position(vault)
            &&& old.stake_recorded(new, height, amount, vault)
        },
        PoolStep::EarlyUnstake { vault } => old.is_staker(vault) && old.withdrawal_recorded(
            new,
            vault,
        ),
        PoolStep::Claim { vault, paid } => old.is_staker(vault) && old.claim_recorded(
            new,
            vault,
            paid,
        ),
    }
}

/// The sums that the counters track fit in a `u128`, so no counter saturates.
pub open spec fn totals_fit(pool: StakingPool) -> bool {
    &&& live_weight(pool.positions@) <= u128::MAX
    &&& live_blocks(pool.positions@) <= u128::MAX
}

/// One step keeps the positions keyed uniquely and the counters equal to the sums
/// over the live positions, as long as the new sums fit in a `u128`.
pub proof fn lemma_step_keeps_accounting(old: StakingPool, new: StakingPool, step: PoolStep)
    requires
        old.wf(),
        old.accounting_matches(),
        step_taken(old, new, step),
        totals_fit(new),
    ensures
        new.wf(),
        new.accounting_matches(),
{
    match step {
        PoolStep::Stake { height, amount, vault } => {
            let e = PositionEntry { vault, position: old.opened_position(height, amount) };
            assert(new.positions@.drop_last() =~= old.positions@);
            assert(new.positions@.last() == e);
            let blocks = old.config.end_height - height;
            assert(weight(e.position) == blocks * amount) by (nonlinear_arith)
                requires
                    weight(e.position) == amount * e.position.stake_blocks,
                    e.position.stake_blocks == blocks,
            ;
            assert forall|i: int, j: int|
                0 <= i < j < new.positions@.len() implies #[trigger] new.positions@[i].vault
                != #[trigger] new.positions@[j].vault by {
                if j == new.positions@.len() - 1 {
                    assert(old.positions@[i].vault != vault);
                } else {
                    assert(old.positions@[i].vault != old.positions@[j].vault);
                }
            }
        },
        PoolStep::EarlyUnstake { vault } => {
            let i = old.index_of(vault);
            let p = old.positions@[i].position;
            let e = PositionEntry { vault, position: Position { withdrawn: true, ..p } };
            lemma_live_update(old.positions@, i, e);
            lemma_part_within_live(old.positions@, i);
            lemma_weight_nonneg(p);
            assert forall|a: int, b: int|
                0 <= a < b < new.positions@.len() implies #[trigger] new.positions@[a].vault
                != #[trigger] new.positions@[b].vault by {
                assert(old.positions@[a].vault != old.positions@[b].vault);
            }
        },
        PoolStep::Claim { vault, paid } => {
            if paid != 0 {
                let i = old.index_of(vault);
                let p = old.positions@[i].position;
                let e = PositionEntry {
                    vault,
                    position: Position { claimed_reward: paid as u128, ..p },
                };
                lemma_live_update(old.positions@, i, e);
                assert forall|a: int, b: int|
                    0 <= a < b < new.positions@.len() implies #[trigger] new.positions@[a].vault
                    != #[trigger] new.positions@[b].vault by {
                    assert(old.positions@[a].vault != old.positions@[b].vault);
                }
            }
        },
    }
}

/// Weight conservation: along any run of stakes, early unstakes and claims that
/// starts from counters equal to the sums over the live positions (as `initialize`
/// leaves them), the total stake weight stays the sum of principal times duration
/// over the positions not withdrawn early, and likewise the total amount and the
/// total duration, at every point of the run, as long as no counter saturates.
pub proof fn lemma_weight_conservation(states: Seq<StakingPool>, steps: Seq<PoolStep>)
    requires
        states.len() == steps.len() + 1,
        states[0].wf(),
        states[0].accounting_matches(),
        forall|k: int|
            0 <= k < steps.len() ==> step_taken(#[trigger] states[k], states[k + 1], steps[k]),
        forall|k: int| 0 < k < states.len() ==> totals_fit(#[trigger] states[k]),
    ensures
        forall|k: int|
            0 <= k < states.len() ==> (#[trigger] states[k]).wf() && states[k].accounting_matches(),
    decreases steps.len(),
{
    if steps.len() > 0 {
        let n = steps.len() - 1;
        lemma_weight_conservation(states.drop_last(), steps.drop_last());
        assert(states.drop_last()[n] == states[n]);
        assert(step_taken(states[n], states[n + 1], steps[n]));
        assert(totals_fit(states[n + 1]));
        lemma_step_keeps_accounting(states[n], states[n + 1], steps[n]);
        assert forall|k: int| 0 <= k < states.len() implies (#[trigger] states[k]).wf()
            && states[k].accounting_matches() by {
            if k < states.len() - 1 {
                assert(states.drop_last()[k] == states[k]);
            }
        }
    }
}

/// A pool whose counters are 0 and which has no positions, as `initialize` leaves
/// it, starts with counters that match its positions.
pub proof fn lemma_fresh_pool_matches(pool: StakingPool)
    requires
        pool.positions@.len() == 0,
        pool.accounting.total_stake_amount == 0,
        pool.accounting.total_stake_blocks == 0,
        pool.accounting.total_stake_weight == 0,
    ensures
        pool.wf(),
        pool.accounting_matches(),
{
}

/// Reward proportionality: with a reward pool `total_reward` shared by weight among
/// positions weighing `total_weight` in all, each of two positions loses less than
/// one unit to rounding, and their rewards stand in the ratio of their weights up
/// to that unit: `r1 * w2 <= (r2 + 1) * w1` and the other way round.
pub proof fn lemma_reward_proportionality(w1: int, w2: int, total_reward: int, total_weight: int)
    requires
        w1 >= 0,
        w2 >= 0,
        total_reward >= 0,
        total_weight > 0,
        w1 * total_reward <= u128::MAX,
        w2 * total_reward <= u128::MAX,
    ensures
        ({
            let r1 = reward_share(w1, total_reward, total_weight);
            let r2 = reward_share(w2, total_reward, total_weight);
            &&& r1 * total_weight <= w1 * total_reward < (r1 + 1) * total_weight
            &&& r2 * total_weight <= w2 * total_reward < (r2 + 1) * total_weight
            &&& r1 * w2 <= (r2 + 1) * w1
            &&& r2 * w1 <= (r1 + 1) * w2
            &&& w1 <= w2 ==> r1 <= r2
        }),
{
    let r1 = reward_share(w1, total_reward, total_weight);
    let r2 = reward_share(w2, total_reward, total_weight);
    lemma_floor_bounds(w1 * total_reward, total_weight);
    lemma_floor_bounds(w2 * total_reward, total_weight);
    lemma_cross_bound(w1, w2, r1, r2, total_reward, total_weight);
    lemma_cross_bound(w2, w1, r2, r1, total_reward, total_weight);
    if w1 <= w2 {
        assert(w1 * total_reward <= w2 * total_reward) by (nonlinear_arith)
            requires
                w1 <= w2,
                total_reward >= 0,
        ;
        vstd::arithmetic::div_mod::lemma_div_is_ordered(
            w1 * total_reward,
            w2 * total_reward,
            total_weight,
        );
    }
}

proof fn lemma_floor_bounds(x: int, d: int)
    requires
        x >= 0,
        d > 0,
    ensures
        (x / d) * d <= x < (x / d + 1) * d,
{
    vstd::arithmetic::div_mod::lemma_fundamental_div_mod(x, d);
    assert(0 <= x % d < d);
    assert((x / d) * d == d * (x / d)) by (nonlinear_arith);
    assert((x / d + 1) * d == d * (x / d) + d) by (nonlinear_arith);
}

proof fn lemma_cross_bound(w1: int, w2: int, r1: int, r2: int, reward: int, total: int)
    requires
        w1 >= 0,
        w2 >= 0,
        total > 0,
        r1 * total <= w1 * reward,
        w2 * reward < (r2 + 1) * total,
    ensures
        r1 * w2 <= (r2 + 1) * w1,
{
    assert(r1 * total * w2 <= w1 * reward * w2) by (nonlinear_arith)
        requires
            r1 * total <= w1 * reward,
            w2 >= 0,
    ;
    assert(w1 * (w2 * reward) <= w1 * ((r2 + 1) * total)) by (nonlinear_arith)
        requires
            w2 * reward < (r2 + 1) * total,
            w1 >= 0,
    ;
    assert((r1 * w2) * total <= ((r2 + 1) * w1) * total) by (nonlinear_arith)
        requires
            r1 * total * w2 <= w1 * reward * w2,
            w1 * (w2 * reward) <= w1 * ((r2 + 1) * total),
    ;
    assert(r1 * w2 <= (r2 + 1) * w1) by (nonlinear_arith)
        requires
            (r1 * w2) * total <= ((r2 + 1) * w1) * total,
            total > 0,
    ;
}

/// Reward proportionality between two positions of one pool: the entitlements of
/// `a` and `b` stand in the ratio of their weights up to one unit each, and a
/// heavier position is owed at least as much.
pub proof fn lemma_claims_proportional(pool: StakingPool, a: AlkaneId, b: AlkaneId)
    requires
        pool.position_of(a) is Some,
        pool.position_of(b) is Some,
        pool.accounting.total_stake_weight > 0,
        weight(pool.position_of(a)->Some_0) * pool.accounting.total_reward_amount <= u128::MAX,
        weight(pool.position_of(b)->Some_0) * pool.accounting.total_reward_amount <= u128::MAX,
    ensures
        ({
            let wa = weight(pool.position_of(a)->Some_0);
            let wb = weight(pool.position_of(b)->Some_0);
            let ra = pool.entitlement(a);
            let rb = pool.entitlement(b);
            &&& ra * wb <= (rb + 1) * wa
            &&& rb * wa <= (ra + 1) * wb
            &&& wa <= wb ==> ra <= rb
        }),
{
    lemma_weight_nonneg(pool.position_of(a)->Some_0);
    lemma_weight_nonneg(pool.position_of(b)->Some_0);
    lemma_reward_proportionality(
        weight(pool.position_of(a)->Some_0),
        weight(pool.position_of(b)->Some_0),
        pool.accounting.total_reward_amount as int,
        pool.accounting.total_stake_weight as int,
    );
}

proof fn lemma_share_fits(w: int, total_reward: int, total_weight: int)
    requires
        w >= 0,
        total_reward >= 0,
        total_weight >= 0,
    ensures
        0 <= reward_share(w, total_reward, total_weight) <= u128::MAX,
{
    if total_weight != 0 && w * total_reward <= u128::MAX {
        assert(w * total_reward >= 0) by (nonlinear_arith)
            requires
                w >= 0,
                total_reward >= 0,
        ;
        assert(w * total_reward / total_weight <= w * total_reward) by (nonlinear_arith)
            requires
                w * total_reward >= 0,
                total_weight > 0,
        ;
        assert(w * total_reward / total_weight >= 0) by (nonlinear_arith)
            requires
                w * total_reward >= 0,
                total_weight > 0,
        ;
    }
}

/// A claim by `vault` changes only that position's claimed reward, which becomes the
/// amount paid where that is positive; what the position is owed stays the same.
proof fn lemma_claim_step(old: StakingPool, new: StakingPool, vault: AlkaneId, paid: int)
    requires
        old.wf(),
        old.is_staker(vault),
        paid == old.claimable(vault),
        old.claim_recorded(new, vault, paid),
    ensures
        new.wf(),
        new.is_staker(vault),
        new.accounting == old.accounting,
        new.entitlement(vault) == old.entitlement(vault),
        paid > 0 ==> (new.position_of(vault)->Some_0).claimed_reward == paid,
        paid == 0 ==> new == old,
        paid > 0 ==> (old.position_of(vault)->Some_0).claimed_reward == 0 && paid == old.entitlement(
            vault,
        ),
        paid >= 0,
{
    let p = old.position_of(vault)->Some_0;
    lemma_weight_nonneg(p);
    lemma_share_fits(
        weight(p),
        old.accounting.total_reward_amount as int,
        old.accounting.total_stake_weight as int,
    );
    if paid != 0 {
        let i = old.index_of(vault);
        assert forall|a: int, b: int|
            0 <= a < b < new.positions@.len() implies #[trigger] new.positions@[a].vault
            != #[trigger] new.positions@[b].vault by {
            assert(old.positions@[a].vault != old.positions@[b].vault);
        }
        assert(new.positions@[i].vault == vault);
        new.lemma_index_of(i);
    }
}

/// Total of the amounts paid.
pub open spec fn total_paid(paid: Seq<int>) -> int
    decreases paid.len(),
{
    if paid.len() == 0 {
        0
    } else {
        total_paid(paid.drop_last()) + paid.last()
    }
}

/// Single-shot claim: however many times a position that has not claimed before
/// unstakes inside the claim window, what it is paid in all is its entitlement,
/// computed once.
pub proof fn lemma_single_shot_claim(states: Seq<StakingPool>, paid: Seq<int>, vault: AlkaneId)
    requires
        states.len() == paid.len() + 1,
        paid.len() >= 1,
        states[0].wf(),
        states[0].position_of(vault) matches Some(p) && p.claimed_reward == 0,
        forall|k: int|
            0 <= k < paid.len() ==> (#[trigger] states[k]).is_staker(vault) && paid[k]
                == states[k].claimable(vault) && states[k].claim_recorded(
                states[k + 1],
                vault,
                paid[k],
            ),
    ensures
        total_paid(paid) == states[0].entitlement(vault),
{
    lemma_claim_run(states, paid, vault);
}

proof fn lemma_claim_run(states: Seq<StakingPool>, paid: Seq<int>, vault: AlkaneId)
    requires
        states.len() == paid.len() + 1,
        paid.len() >= 1,
        states[0].wf(),
        states[0].position_of(vault) matches Some(p) && p.claimed_reward == 0,
        forall|k: int|
            0 <= k < paid.len() ==> (#[trigger] states[k]).is_staker(vault) && paid[k]
                == states[k].claimable(vault) && states[k].claim_recorded(
                states[k + 1],
                vault,
                paid[k],
            ),
    ensures
        total_paid(paid) == states[0].entitlement(vault),
        states.last().wf(),
        states.last().entitlement(vault) == states[0].entitlement(vault),
        (states.last().position_of(vault)->Some_0).claimed_reward == 0 ==> states[0].entitlement(
            vault,
        ) == 0,
    decreases paid.len(),
{
    let n = paid.len() - 1;
    if n == 0 {
        lemma_claim_step(states[0], states[1], vault, paid[0]);
        assert(paid.drop_last() =~= Seq::<int>::empty());
        assert(total_paid(paid.drop_last()) == 0);
        assert(states.last() == states[1]);
    } else {
        let shorter = states.drop_last();
        lemma_claim_run(shorter, paid.drop_last(), vault);
        assert(shorter.last() == states[n]);
        assert(shorter[0] == states[0]);
        assert(states[n].is_staker(vault));
        lemma_claim_step(states[n], states[n + 1], vault, paid[n]);
        assert(states.last() == states[n + 1]);
        assert(paid[n] == 0);
    }
}

/// Window boundaries: where the window leaves room for it and the cap is not what
/// stops it, a stake is accepted at two blocks before the end height and rejected
/// from one block before it on; claims run from the end height to
/// `CLAIM_WINDOW_BLOCKS` blocks after it, when the owner's withdrawal opens.
pub proof fn lemma_window_boundaries(pool: StakingPool, amount: int)
    requires
        pool.config.start_height + 2 <= pool.config.end_height,
        amount >= 0,
        pool.accounting.total_stake_amount + amount <= pool.config.max_total_stake,
    ensures
        pool.stake_rejection((pool.config.end_height - 2) as u64, amount) is None,
        pool.stake_rejection((pool.config.end_height - 1) as u64, amount) == Some(
            StakingError::StakingEnded,
        ),
        forall|h: u64|
            h + 2 > pool.config.end_height ==> #[trigger] pool.stake_rejection(h, amount) == Some(
                StakingError::StakingEnded,
            ),
        pool.claim_deadline() == pool.config.end_height + 1008,
        pool.config.end_height < pool.claim_deadline(),
{
}

/// Cap enforcement: a stake that would take the total staked amount above the cap
/// is rejected; one that is accepted leaves the total within the cap.
pub proof fn lemma_cap_enforced(old: StakingPool, new: StakingPool, height: u64, amount: u128, vault: AlkaneId)
    ensures
        height >= old.config.start_height && height + 2 <= old.config.end_height
            && old.accounting.total_stake_amount + amount > old.config.max_total_stake
            ==> old.stake_rejection(height, amount as int) == Some(StakingError::ExceedsMaxStake),
        old.stake_rejection(height, amount as int) is None && old.stake_recorded(
            new,
            height,
            amount,
            vault,
        ) ==> new.accounting.total_stake_amount == old.accounting.total_stake_amount + amount
            && new.accounting.total_stake_amount <= new.config.max_total_stake,
{
}

/// Early-withdrawal neutrality: after `a` unstakes early, every other position is
/// unchanged and is owed what the reward formula gives with the same pool and the
/// total weight less `a`'s weight, and nothing else.
pub proof fn lemma_early_withdrawal_neutrality(
    old: StakingPool,
    new: StakingPool,
    a: AlkaneId,
    b: AlkaneId,
)
    requires
        old.wf(),
        old.accounting_matches(),
        old.is_staker(a),
        old.withdrawal_recorded(new, a),
        b != a,
    ensures
        new.position_of(b) == old.position_of(b),
        new.accounting.total_reward_amount == old.accounting.total_reward_amount,
        new.accounting.total_stake_weight == old.accounting.total_stake_weight - weight(
            old.position_of(a)->Some_0,
        ),
        new.entitlement(b) == match old.position_of(b) {
            Some(p) => reward_share(
                weight(p),
                old.accounting.total_reward_amount as int,
                old.accounting.total_stake_weight - weight(old.position_of(a)->Some_0),
            ),
            None => 0,
        },
{
    let i = old.index_of(a);
    let p = old.positions@[i].position;
    let e = PositionEntry { vault: a, position: Position { withdrawn: true, ..p } };
    lemma_part_within_live(old.positions@, i);
    lemma_weight_nonneg(p);
    assert forall|x: int, y: int|
        0 <= x < y < new.positions@.len() implies #[trigger] new.positions@[x].vault
        != #[trigger] new.positions@[y].vault by {
        assert(old.positions@[x].vault != old.positions@[y].vault);
    }
    if old.has_position(b) {
        let k = old.index_of(b);
        old.lemma_index_of(k);
        assert(new.positions@[k].vault == b);
        new.lemma_index_of(k);
    }
    if new.has_position(b) {
        let k = new.index_of(b);
        assert(old.positions@[k].vault == b);
    }
}

/// Sum of the entitlements of the entries not withdrawn, with a reward pool of
/// `total_reward` and a total weight of `total_weight`.
pub open spec fn live_entitlements(s: Seq<PositionEntry>, total_reward: int, total_weight: int) -> int
    decreases s.len(),
{
    if s.len() == 0 {
        0
    } else {
        live_entitlements(s.drop_last(), total_reward, total_weight) + if s.last().position.withdrawn {
            0
        } else {
            reward_share(weight(s.last().position), total_reward, total_weight)
        }
    }
}

proof fn lemma_entitlements_scaled(s: Seq<PositionEntry>, total_reward: int, total_weight: int)
    requires
        total_reward >= 0,
        total_weight > 0,
    ensures
        live_entitlements(s, total_reward, total_weight) * total_weight <= live_weight(s)
            * total_reward,
    decreases s.len(),
{
    if s.len() > 0 {
        let rest = s.drop_last();
        lemma_entitlements_scaled(rest, total_reward, total_weight);
        let sum = live_entitlements(rest, total_reward, total_weight);
        let lw = live_weight(rest);
        let p = s.last().position;
        lemma_weight_nonneg(p);
        let w = weight(p);
        let t = if p.withdrawn {
            0
        } else {
            reward_share(w, total_reward, total_weight)
        };
        let v = if p.withdrawn {
            0
        } else {
            w
        };
        if p.withdrawn {
            assert(t * total_weight == 0 && v * total_reward == 0);
        } else {
            assert(w * total_reward >= 0) by (nonlinear_arith)
                requires
                    w >= 0,
                    total_reward >= 0,
            ;
            if w * total_reward <= u128::MAX {
                lemma_floor_bounds(w * total_reward, total_weight);
                assert(t == (w * total_reward) / total_weight);
            } else {
                assert(t == 0);
                assert(t * total_weight == 0);
            }
        }
        assert(t * total_weight <= v * total_reward);
        assert((sum + t) * total_weight <= (lw + v) * total_reward) by (nonlinear_arith)
            requires
                sum * total_weight <= lw * total_reward,
                t * total_weight <= v * total_reward,
        ;
    }
}

proof fn lemma_entitlements_without_weight(s: Seq<PositionEntry>, total_reward: int)
    ensures
        live_entitlements(s, total_reward, 0) == 0,
    decreases s.len(),
{
    if s.len() > 0 {
        lemma_entitlements_without_weight(s.drop_last(), total_reward);
    }
}

/// No reward leakage: where the counters match the positions, what the live
/// positions are owed adds up to at most the reward pool.
pub proof fn lemma_rewards_within_pool(pool: StakingPool)
    requires
        pool.accounting_matches(),
    ensures
        live_entitlements(
            pool.positions@,
            pool.accounting.total_reward_amount as int,
            pool.accounting.total_stake_weight as int,
        ) <= pool.accounting.total_reward_amount,
{
    let r = pool.accounting.total_reward_amount as int;
    let w = pool.accounting.total_stake_weight as int;
    if w == 0 {
        lemma_entitlements_without_weight(pool.positions@, r);
    } else {
        lemma_entitlements_scaled(pool.positions@, r, w);
        let sum = live_entitlements(pool.positions@, r, w);
        assert(sum <= r) by (nonlinear_arith)
            requires
                sum * w <= w * r,
                w > 0,
        ;
    }
}

/// The vault keeps its receipt: where the pool's answer to a forwarded unstake sends
/// no unit of the vault's own token and names another asset as the staking asset,
/// what the vault sends out holds no unit of its own token either. The receipt that
/// authenticated the unstake stays with the vault, so the holder cannot unstake
/// through it again.
pub proof fn lemma_vault_keeps_receipt(
    myself: AlkaneId,
    pool_response: CallResponse,
    staking_balance: u128,
)
    requires
        forall|i: int|
            0 <= i < pool_response.alkanes@.len() ==> (#[trigger] pool_response.alkanes@[i]).id
                != myself,
        crate::id::id_of_bytes(pool_response.data@) != myself,
    ensures
        forall|i: int|
            0 <= i < unstake_transfers(pool_response, staking_balance).len() ==> (
            #[trigger] unstake_transfers(pool_response, staking_balance)[i]).id != myself,
{
    let out = unstake_transfers(pool_response, staking_balance);
    assert forall|i: int| 0 <= i < out.len() implies (#[trigger] out[i]).id != myself by {
        if i < pool_response.alkanes@.len() {
            assert(out[i] == pool_response.alkanes@[i]);
        }
    }
}

} // verus!
