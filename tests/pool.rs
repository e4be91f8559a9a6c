use alkanes_stake::error::StakingError;
use alkanes_stake::id::AlkaneId;
use alkanes_stake::parcel::{AlkaneTransfer, CallResponse, Context};
use alkanes_stake::pool::{Attributes, StakingPool, CLAIM_WINDOW_BLOCKS};

const POOL: AlkaneId = AlkaneId { block: 4, tx: 100 };
const DEPLOYER: AlkaneId = AlkaneId { block: 9, tx: 1 };
const USER: AlkaneId = AlkaneId { block: 9, tx: 2 };
const REWARD: AlkaneId = AlkaneId { block: 2, tx: 10 };
const STAKING: AlkaneId = AlkaneId { block: 2, tx: 20 };
const OTHER: AlkaneId = AlkaneId { block: 2, tx: 30 };

fn transfer(id: AlkaneId, value: u128) -> AlkaneTransfer {
    AlkaneTransfer { id, value }
}

fn context(caller: AlkaneId, incoming: Vec<AlkaneTransfer>) -> Context {
    Context { myself: POOL, caller, incoming_alkanes: incoming }
}

fn vault(sequence: u128) -> AlkaneId {
    AlkaneId { block: 2, tx: sequence }
}

fn pool_with(start: u128, end: u128, max: u128, reward: u128) -> StakingPool {
    let mut pool = StakingPool::new();
    let ctx = context(DEPLOYER, vec![transfer(REWARD, reward)]);
    pool.initialize(start, end, 7, REWARD, STAKING, max, &ctx, "DIESEL").unwrap();
    pool
}

fn scenario_pool() -> StakingPool {
    pool_with(100, 1100, 1000, 500)
}

fn stake(pool: &mut StakingPool, height: u64, amount: u128, sequence: u128) -> Result<CallResponse, StakingError> {
    let ctx = context(USER, vec![transfer(STAKING, amount)]);
    pool.prepare_stake(height, &ctx)?;
    let created = vec![transfer(vault(sequence), 1)];
    pool.stake(height, &ctx, sequence, &created)
}

fn unstake(pool: &mut StakingPool, height: u64, sequence: u128) -> Result<CallResponse, StakingError> {
    pool.unstake(height, &context(vault(sequence), vec![]))
}

fn reward_paid(resp: &CallResponse) -> u128 {
    resp.alkanes.iter().filter(|t| t.id == REWARD).map(|t| t.value).sum()
}

#[test]
fn initialize_configures_pool() {
    let mut pool = StakingPool::new();
    let ctx = context(DEPLOYER, vec![transfer(REWARD, 300), transfer(OTHER, 5), transfer(REWARD, 200)]);
    let resp = pool.initialize(100, 1100, 7, REWARD, STAKING, 1000, &ctx, "DIESEL").unwrap();
    assert_eq!(resp.alkanes, vec![transfer(OTHER, 5), transfer(POOL, 1)]);
    assert!(resp.data.is_empty());
    assert_eq!(pool.get_start_height(), 100);
    assert_eq!(pool.get_end_height(), 1100);
    assert_eq!(pool.get_total_reward_amount(), 500);
    assert_eq!(pool.get_max_total_stake(), 1000);
    assert_eq!(pool.get_vault_template_id(), 7);
    assert_eq!(pool.get_reward_token_id(), REWARD);
    assert_eq!(pool.get_staking_token_id(), STAKING);
    assert_eq!(pool.get_collection_name(), "DIESEL Staking");
    assert_eq!(pool.get_staking_count(), 0);
    assert_eq!(pool.get_total_stake_weight(), 0);
}

#[test]
fn initialize_twice_is_rejected() {
    let mut pool = scenario_pool();
    let ctx = context(DEPLOYER, vec![]);
    let r = pool.initialize(1, 2, 3, REWARD, STAKING, 4, &ctx, "X");
    assert_eq!(r.unwrap_err(), StakingError::AlreadyInitialized);
    assert_eq!(pool.get_end_height(), 1100);
}

#[test]
fn initialize_with_zero_is_noop() {
    let mut pool = StakingPool::new();
    let ctx = context(DEPLOYER, vec![transfer(REWARD, 500)]);
    let resp = pool.initialize(0, 1100, 7, REWARD, STAKING, 1000, &ctx, "DIESEL").unwrap();
    assert_eq!(resp.alkanes, vec![transfer(REWARD, 500)]);
    assert!(pool.initialized);
    assert_eq!(pool.get_end_height(), 0);
    assert_eq!(pool.get_total_reward_amount(), 0);
    let again = pool.initialize(100, 1100, 7, REWARD, STAKING, 1000, &ctx, "DIESEL");
    assert_eq!(again.unwrap_err(), StakingError::AlreadyInitialized);
}

#[test]
fn reward_sum_saturates() {
    let pool = pool_with(100, 1100, 1000, u128::MAX);
    let mut pool2 = StakingPool::new();
    let ctx = context(DEPLOYER, vec![transfer(REWARD, u128::MAX), transfer(REWARD, 3)]);
    pool2.initialize(100, 1100, 7, REWARD, STAKING, 1000, &ctx, "DIESEL").unwrap();
    assert_eq!(pool.get_total_reward_amount(), u128::MAX);
    assert_eq!(pool2.get_total_reward_amount(), u128::MAX);
}

#[test]
fn scenario_two_stakers_share_rewards() {
    let mut pool = scenario_pool();
    let a = stake(&mut pool, 200, 200, 501).unwrap();
    assert_eq!(a.alkanes, vec![transfer(vault(501), 1)]);
    let pa = pool.get_position(&vault(501)).unwrap();
    assert_eq!(pa.stake_blocks, 900);
    assert_eq!(pa.stake_block, 200);
    stake(&mut pool, 600, 300, 502).unwrap();
    let pb = pool.get_position(&vault(502)).unwrap();
    assert_eq!(pb.stake_blocks, 500);
    assert_eq!(pool.get_total_stake_weight(), 330000);
    assert_eq!(pool.get_total_stake_amount(), 500);
    assert_eq!(pool.get_total_stake_blocks(), 1400);
    assert_eq!(pool.get_staking_count(), 2);
    assert_eq!(pool.calc_reward(&vault(501)), 272);
    assert_eq!(pool.calc_reward(&vault(502)), 227);
    let ra = unstake(&mut pool, 1100, 501).unwrap();
    let rb = unstake(&mut pool, 1100, 502).unwrap();
    assert_eq!(reward_paid(&ra), 272);
    assert_eq!(reward_paid(&rb), 227);
    assert_eq!(pool.get_total_stake_weight(), 330000);
}

#[test]
fn stake_returns_other_assets() {
    let mut pool = scenario_pool();
    let ctx = context(USER, vec![transfer(OTHER, 9), transfer(STAKING, 50), transfer(STAKING, 25)]);
    let call = pool.prepare_stake(300, &ctx).unwrap();
    assert_eq!(call.cellpack.target, AlkaneId { block: 5, tx: 7 });
    assert_eq!(call.cellpack.inputs, vec![0, 1]);
    assert_eq!(call.transfer, vec![transfer(STAKING, 50), transfer(STAKING, 25)]);
    let resp = pool.stake(300, &ctx, 77, &vec![transfer(vault(77), 1)]).unwrap();
    assert_eq!(resp.alkanes, vec![transfer(OTHER, 9), transfer(vault(77), 1)]);
    assert_eq!(pool.get_position(&vault(77)).unwrap().stake_amount, 75);
    assert_eq!(pool.get_total_stake_weight(), 75 * 800);
}

#[test]
fn stake_window_boundary() {
    let mut pool = scenario_pool();
    assert_eq!(stake(&mut pool, 99, 10, 1).unwrap_err(), StakingError::StakingNotStarted);
    assert!(stake(&mut pool, 100, 10, 2).is_ok());
    assert!(stake(&mut pool, 1098, 10, 3).is_ok());
    assert_eq!(pool.get_position(&vault(3)).unwrap().stake_blocks, 2);
    assert_eq!(stake(&mut pool, 1099, 10, 4).unwrap_err(), StakingError::StakingEnded);
    assert_eq!(stake(&mut pool, 1100, 10, 5).unwrap_err(), StakingError::StakingEnded);
}

#[test]
fn claim_window_boundary() {
    let mut pool = scenario_pool();
    stake(&mut pool, 200, 100, 1).unwrap();
    stake(&mut pool, 200, 100, 2).unwrap();
    stake(&mut pool, 200, 100, 3).unwrap();
    let at_end = unstake(&mut pool, 1100, 1).unwrap();
    assert_eq!(reward_paid(&at_end), 166);
    let last = unstake(&mut pool, 1100 + CLAIM_WINDOW_BLOCKS - 1, 2).unwrap();
    assert_eq!(reward_paid(&last), 166);
    let late = unstake(&mut pool, 1100 + CLAIM_WINDOW_BLOCKS, 3).unwrap();
    assert_eq!(reward_paid(&late), 0);
    assert_eq!(pool.get_position(&vault(3)).unwrap().claimed_reward, 0);
    let later = unstake(&mut pool, 5000, 3).unwrap();
    assert_eq!(reward_paid(&later), 0);
}

#[test]
fn withdraw_window_boundary() {
    let pool = scenario_pool();
    let owner = context(DEPLOYER, vec![transfer(POOL, 1)]);
    assert_eq!(pool.withdraw(2107, &owner, 58).unwrap_err(), StakingError::ClaimWindowOpen);
    assert_eq!(pool.withdraw(1100, &owner, 58).unwrap_err(), StakingError::ClaimWindowOpen);
    let resp = pool.withdraw(2108, &owner, 58).unwrap();
    assert_eq!(resp.alkanes, vec![transfer(POOL, 1), transfer(REWARD, 58)]);
    assert!(pool.withdraw(9000, &owner, 0).is_ok());
}

#[test]
fn withdraw_requires_owner_token() {
    let pool = scenario_pool();
    let none = context(DEPLOYER, vec![]);
    assert_eq!(pool.withdraw(3000, &none, 1).unwrap_err(), StakingError::NotSoleToken);
    let two = context(DEPLOYER, vec![transfer(POOL, 1), transfer(POOL, 1)]);
    assert_eq!(pool.withdraw(3000, &two, 1).unwrap_err(), StakingError::NotSoleToken);
    let wrong = context(DEPLOYER, vec![transfer(OTHER, 1)]);
    assert_eq!(pool.withdraw(3000, &wrong, 1).unwrap_err(), StakingError::NotOwnToken);
    let zero = context(DEPLOYER, vec![transfer(POOL, 0)]);
    assert_eq!(pool.withdraw(3000, &zero, 1).unwrap_err(), StakingError::NoTokenUnits);
    assert!(pool.only_owner(&context(DEPLOYER, vec![transfer(POOL, 3)])).is_ok());
}

#[test]
fn cap_is_enforced() {
    let mut pool = scenario_pool();
    stake(&mut pool, 200, 600, 1).unwrap();
    let before_weight = pool.get_total_stake_weight();
    let r = stake(&mut pool, 300, 401, 2);
    assert_eq!(r.unwrap_err(), StakingError::ExceedsMaxStake);
    assert_eq!(pool.get_total_stake_amount(), 600);
    assert_eq!(pool.get_total_stake_weight(), before_weight);
    assert_eq!(pool.get_staking_count(), 1);
    assert!(pool.get_position(&vault(2)).is_none());
    assert!(stake(&mut pool, 300, 400, 3).is_ok());
    assert_eq!(pool.get_total_stake_amount(), 1000);
}

#[test]
fn cap_rejects_overflowing_attachment() {
    let mut pool = pool_with(100, 1100, u128::MAX, 500);
    let ctx = context(USER, vec![transfer(STAKING, u128::MAX), transfer(STAKING, 1)]);
    assert_eq!(pool.prepare_stake(200, &ctx).unwrap_err(), StakingError::ExceedsMaxStake);
    let r = pool.stake(200, &ctx, 1, &vec![transfer(vault(1), 1)]);
    assert_eq!(r.unwrap_err(), StakingError::ExceedsMaxStake);
}

#[test]
fn vault_creation_failure_is_rejected() {
    let mut pool = scenario_pool();
    let ctx = context(USER, vec![transfer(STAKING, 10)]);
    assert_eq!(pool.stake(200, &ctx, 1, &vec![]).unwrap_err(), StakingError::VaultCreationFailed);
    assert_eq!(pool.get_staking_count(), 0);
    stake(&mut pool, 200, 10, 1).unwrap();
    let again = pool.stake(200, &ctx, 1, &vec![transfer(vault(1), 1)]);
    assert_eq!(again.unwrap_err(), StakingError::VaultAlreadyBound);
}

#[test]
fn unstake_requires_position() {
    let mut pool = scenario_pool();
    assert_eq!(unstake(&mut pool, 500, 42).unwrap_err(), StakingError::NotAStaker);
    stake(&mut pool, 200, 0, 43).unwrap();
    assert_eq!(unstake(&mut pool, 500, 43).unwrap_err(), StakingError::NotAStaker);
}

#[test]
fn unstake_reports_staking_token() {
    let mut pool = scenario_pool();
    stake(&mut pool, 200, 10, 1).unwrap();
    let resp = unstake(&mut pool, 300, 1).unwrap();
    assert_eq!(resp.data, STAKING.to_bytes());
    assert_eq!(AlkaneId::from_bytes(&resp.data), Some(STAKING));
}

#[test]
fn single_shot_claim() {
    let mut pool = scenario_pool();
    stake(&mut pool, 200, 200, 1).unwrap();
    stake(&mut pool, 600, 300, 2).unwrap();
    let first = unstake(&mut pool, 1200, 1).unwrap();
    let second = unstake(&mut pool, 1300, 1).unwrap();
    let third = unstake(&mut pool, 2000, 1).unwrap();
    assert_eq!(reward_paid(&first), 272);
    assert_eq!(reward_paid(&second), 0);
    assert_eq!(reward_paid(&third), 0);
    assert_eq!(pool.get_position(&vault(1)).unwrap().claimed_reward, 272);
}

#[test]
fn early_withdrawal_neutrality() {
    let mut pool = scenario_pool();
    stake(&mut pool, 200, 200, 1).unwrap();
    stake(&mut pool, 600, 300, 2).unwrap();
    stake(&mut pool, 700, 100, 3).unwrap();
    assert_eq!(pool.get_total_stake_weight(), 180000 + 150000 + 40000);
    let before_b = pool.get_position(&vault(2)).unwrap();
    let resp = unstake(&mut pool, 800, 3).unwrap();
    assert_eq!(reward_paid(&resp), 0);
    assert_eq!(pool.get_total_stake_weight(), 330000);
    assert_eq!(pool.get_total_stake_amount(), 500);
    assert_eq!(pool.get_total_stake_blocks(), 1400);
    assert_eq!(pool.get_position(&vault(2)).unwrap(), before_b);
    assert!(pool.get_position(&vault(3)).unwrap().withdrawn);
    assert_eq!(pool.get_position(&vault(3)).unwrap().stake_amount, 100);
    assert_eq!(pool.calc_reward(&vault(1)), 272);
    assert_eq!(pool.calc_reward(&vault(2)), 227);
    assert_eq!(unstake(&mut pool, 900, 3).unwrap_err(), StakingError::NotAStaker);
    assert_eq!(pool.get_total_stake_weight(), 330000);
}

#[test]
fn weight_matches_sum_of_positions() {
    let mut pool = scenario_pool();
    let plan: [(u64, u128, u128); 5] = [(150, 10, 1), (300, 20, 2), (450, 30, 3), (600, 40, 4), (750, 50, 5)];
    for (h, amount, seq) in plan {
        stake(&mut pool, h, amount, seq).unwrap();
    }
    unstake(&mut pool, 800, 2).unwrap();
    unstake(&mut pool, 900, 4).unwrap();
    let mut weight = 0u128;
    let mut amount = 0u128;
    let mut blocks = 0u128;
    for e in &pool.positions {
        if !e.position.withdrawn {
            weight += e.position.stake_amount * e.position.stake_blocks;
            amount += e.position.stake_amount;
            blocks += e.position.stake_blocks;
        }
    }
    assert_eq!(pool.get_total_stake_weight(), weight);
    assert_eq!(weight, 10 * 950 + 30 * 650 + 50 * 350);
    assert_eq!(pool.get_total_stake_amount(), amount);
    assert_eq!(pool.get_total_stake_blocks(), blocks);
}

#[test]
fn reward_proportional_to_weight() {
    let mut pool = pool_with(100, 1100, 1_000_000, 1_000_000);
    stake(&mut pool, 100, 3, 1).unwrap();
    stake(&mut pool, 100, 7, 2).unwrap();
    let r1 = pool.calc_reward(&vault(1));
    let r2 = pool.calc_reward(&vault(2));
    assert_eq!(r1, 300000);
    assert_eq!(r2, 700000);
    assert_eq!(r1 * 7000, r2 * 3000);
}

#[test]
fn reward_formula_edges() {
    let pool = scenario_pool();
    assert_eq!(pool.calc_reward(&vault(1)), 0);
    let mut big = pool_with(100, 1100, u128::MAX, u128::MAX);
    stake(&mut big, 200, 1000, 1).unwrap();
    assert_eq!(big.calc_reward(&vault(1)), 0);
    let mut empty = pool_with(100, 1100, 1000, 0);
    stake(&mut empty, 200, 1000, 1).unwrap();
    assert_eq!(empty.calc_reward(&vault(1)), 0);
}

#[test]
fn next_index_saturates() {
    let mut pool = scenario_pool();
    pool.accounting.staking_count = u128::MAX;
    assert_eq!(pool.get_next_staking_index(), u128::MAX);
    assert_eq!(StakingPool::new().get_next_staking_index(), 1);
}

#[test]
fn attributes_for_pool_and_staker() {
    let mut pool = scenario_pool();
    stake(&mut pool, 200, 200, 1).unwrap();
    stake(&mut pool, 600, 300, 2).unwrap();
    let outsider = pool.get_attributes(&USER, 500);
    assert_eq!(
        outsider,
        Attributes::Pool {
            start_block: 100,
            end_block: 1100,
            staking_token: STAKING,
            reward_token: REWARD,
            max_total_stake: 1000,
            total_stake_amount: 500,
            total_reward_amount: 500,
            claimable_reward_amount: 500,
        }
    );
    let staker = pool.get_attributes(&vault(1), 500);
    assert_eq!(
        staker,
        Attributes::Position {
            stake_block: 200,
            stake_amount: 200,
            stake_blocks: 900,
            total_reward: 272,
            claimed_reward: 0,
        }
    );
}

#[test]
fn restore_position_replaces() {
    let mut pool = scenario_pool();
    stake(&mut pool, 200, 200, 1).unwrap();
    let mut p = pool.get_position(&vault(1)).unwrap();
    p.claimed_reward = 9;
    pool.restore_position(vault(1), p);
    assert_eq!(pool.positions.len(), 1);
    assert_eq!(pool.get_position(&vault(1)).unwrap().claimed_reward, 9);
    pool.restore_position(vault(2), p);
    assert_eq!(pool.positions.len(), 2);
}

#[test]
fn validate_staking_parameters_checks_in_order() {
    let pool = scenario_pool();
    assert_eq!(pool.validate_staking_parameters(50, 5000).unwrap_err(), StakingError::StakingNotStarted);
    assert_eq!(pool.validate_staking_parameters(1099, 5000).unwrap_err(), StakingError::StakingEnded);
    assert_eq!(pool.validate_staking_parameters(500, 1001).unwrap_err(), StakingError::ExceedsMaxStake);
    assert!(pool.validate_staking_parameters(500, 1000).is_ok());
}

#[test]
fn unconfigured_pool_rejects_stakes() {
    let mut pool = StakingPool::new();
    assert_eq!(stake(&mut pool, 0, 10, 1).unwrap_err(), StakingError::StakingEnded);
}

#[test]
fn rewards_never_exceed_pool() {
    let mut pool = pool_with(100, 1100, 1_000_000, 1000);
    let plan: [(u64, u128, u128); 4] = [(101, 7, 1), (333, 13, 2), (517, 29, 3), (1001, 3, 4)];
    for (h, amount, seq) in plan {
        stake(&mut pool, h, amount, seq).unwrap();
    }
    let total: u128 = (1..=4).map(|s| pool.calc_reward(&vault(s))).sum();
    assert!(total <= 1000);
    assert!(total >= 996);
}

#[test]
fn attributes_for_withdrawn_position() {
    let mut pool = scenario_pool();
    stake(&mut pool, 200, 200, 1).unwrap();
    stake(&mut pool, 600, 300, 2).unwrap();
    unstake(&mut pool, 700, 1).unwrap();
    let withdrawn = pool.get_attributes(&vault(1), 500);
    assert_eq!(
        withdrawn,
        Attributes::Position {
            stake_block: 200,
            stake_amount: 200,
            stake_blocks: 900,
            total_reward: pool.calc_reward(&vault(1)),
            claimed_reward: 0,
        }
    );
}

#[test]
fn oversized_heights_saturate() {
    let mut pool = StakingPool::new();
    let ctx = context(DEPLOYER, vec![]);
    let big = (u64::MAX as u128) + 1;
    pool.initialize(100, big, 7, REWARD, STAKING, 1000, &ctx, "DIESEL").unwrap();
    assert_eq!(pool.get_end_height(), u64::MAX);
    assert_eq!(pool.get_start_height(), 100);
    assert!(stake(&mut pool, 200, 10, 1).is_ok());
}
