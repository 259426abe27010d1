use staking_contract::address::Address;
use staking_contract::biguint::BigUint;
use staking_contract::step::{claim_rewards, stake, unstake, Update};
use staking_contract::types::{
    CallContext, StakingError, StakingPosition, StakingTotal, Transfer, REWARD_PER_BLOCK,
};

fn caller() -> Address {
    Address([9; 32])
}

fn context(nonce: u64, epoch: u64, timestamp: u64) -> CallContext {
    CallContext { caller: caller(), block_nonce: nonce, block_epoch: epoch, block_timestamp: timestamp }
}

fn staked(stake: u64, block: u64, timestamp: u64) -> StakingPosition {
    StakingPosition {
        stake_amount: BigUint::from_u64(stake),
        last_action_block: block,
        last_action_block_timestamp: timestamp,
    }
}

fn aggregate(stake: u64, block: u64, timestamp: u64) -> StakingTotal {
    StakingTotal {
        stake_amount: BigUint::from_u64(stake),
        last_action_block: block,
        last_action_block_timestamp: timestamp,
    }
}

fn settled_reward(stake: u64, blocks: u64) -> Transfer {
    Transfer {
        to: caller(),
        amount: BigUint::from_u64(stake).mul_u64(REWARD_PER_BLOCK).mul_u64(blocks),
    }
}

fn principal(amount: u64) -> Transfer {
    Transfer { to: caller(), amount: BigUint::from_u64(amount) }
}

fn parts(update: Update) -> (Option<StakingPosition>, Vec<Transfer>) {
    (update.position, update.transfers)
}

#[test]
fn stake_step_opens_a_position() {
    let mut total = aggregate(70, 1, 2);
    let update = stake(None, &mut total, &context(500, 4, 3000), BigUint::from_u64(30)).unwrap();
    assert_eq!(parts(update), (Some(staked(30, 500, 3000)), vec![]));
    assert_eq!(total, aggregate(100, 4, 3000));
}

#[test]
fn stake_step_adds_to_a_position() {
    let mut total = aggregate(70, 1, 2);
    let update =
        stake(Some(staked(20, 490, 77)), &mut total, &context(500, 4, 3000), BigUint::from_u64(30))
            .unwrap();
    assert_eq!(parts(update), (Some(staked(50, 500, 77)), vec![settled_reward(20, 10)]));
    assert_eq!(total, aggregate(100, 4, 3000));
}

#[test]
fn stake_step_refuses_no_payment() {
    let mut total = aggregate(70, 1, 2);
    let r = stake(Some(staked(20, 490, 77)), &mut total, &context(500, 4, 3000), BigUint::zero());
    assert_eq!(r.err(), Some(StakingError::InvalidPayment));
    let r = stake(None, &mut total, &context(500, 4, 3000), BigUint::zero());
    assert_eq!(r.err(), Some(StakingError::InvalidPayment));
    assert_eq!(total, aggregate(70, 1, 2));
}

#[test]
fn unstake_step_takes_a_part() {
    let mut total = aggregate(70, 1, 2);
    let update = unstake(
        Some(staked(20, 490, 77)),
        &mut total,
        &context(500, 4, 3000),
        Some(BigUint::from_u64(5)),
    )
    .unwrap();
    assert_eq!(parts(update), (Some(staked(15, 500, 77)), vec![settled_reward(20, 10), principal(5)]));
    assert_eq!(total, aggregate(65, 1, 2));
}

#[test]
fn unstake_step_takes_all() {
    let mut total = aggregate(70, 1, 2);
    let update =
        unstake(Some(staked(20, 490, 77)), &mut total, &context(500, 4, 3000), None).unwrap();
    assert_eq!(parts(update), (None, vec![settled_reward(20, 10), principal(20)]));
    assert_eq!(total, aggregate(50, 1, 2));

    let mut total = aggregate(20, 1, 2);
    let update = unstake(
        Some(staked(20, 500, 77)),
        &mut total,
        &context(500, 4, 3000),
        Some(BigUint::from_u64(20)),
    )
    .unwrap();
    assert_eq!(parts(update), (None, vec![principal(20)]));
    assert_eq!(total, aggregate(0, 1, 2));
}

#[test]
fn unstake_step_refusals() {
    let mut total = aggregate(70, 1, 2);
    let ctx = context(500, 4, 3000);
    let r = unstake(None, &mut total, &ctx, Some(BigUint::from_u64(5)));
    assert_eq!(r.err(), Some(StakingError::NotStaked));
    let r = unstake(None, &mut total, &ctx, None);
    assert_eq!(r.err(), Some(StakingError::NotStaked));
    let r = unstake(Some(staked(20, 490, 77)), &mut total, &ctx, Some(BigUint::zero()));
    assert_eq!(r.err(), Some(StakingError::InvalidUnstakeAmount));
    let r = unstake(Some(staked(20, 490, 77)), &mut total, &ctx, Some(BigUint::from_u64(21)));
    assert_eq!(r.err(), Some(StakingError::InvalidUnstakeAmount));
    // a position without stake has nothing to withdraw
    let r = unstake(Some(staked(0, 490, 77)), &mut total, &ctx, None);
    assert_eq!(r.err(), Some(StakingError::InvalidUnstakeAmount));
    assert_eq!(total, aggregate(70, 1, 2));
}

#[test]
fn claim_step_settles_the_reward() {
    let update = claim_rewards(Some(staked(20, 490, 77)), &context(500, 4, 3000)).unwrap();
    assert_eq!(parts(update), (Some(staked(20, 500, 77)), vec![settled_reward(20, 10)]));
    let update = claim_rewards(Some(staked(20, 500, 77)), &context(500, 4, 3000)).unwrap();
    assert_eq!(parts(update), (Some(staked(20, 500, 77)), vec![]));
    let r = claim_rewards(None, &context(500, 4, 3000));
    assert_eq!(r.err(), Some(StakingError::NotStaked));
}
