use staking_contract::address::Address;
use staking_contract::biguint::BigUint;
use staking_contract::contract::StakingContract;
use staking_contract::types::{
    CallContext, StakingError, StakingPosition, StakingTotal, Transfer, REWARD_PER_BLOCK,
};

fn account(tag: u8) -> Address {
    Address([tag; 32])
}

fn at(caller: Address, block: u64) -> CallContext {
    CallContext { caller, block_nonce: block, block_epoch: block / 100, block_timestamp: block * 6 }
}

fn units(v: u64) -> BigUint {
    BigUint::from_u64(v)
}

fn pay(to: Address, amount: BigUint) -> Transfer {
    Transfer { to, amount }
}

fn sum_of_stakes(c: &StakingContract) -> BigUint {
    let mut sum = BigUint::zero();
    for a in c.staked_addresses().to_vec() {
        sum = sum.add(&c.staking_position(&a).unwrap().stake_amount);
    }
    sum
}

fn check_consistent(c: &StakingContract) {
    assert_eq!(c.staking_total().stake_amount, sum_of_stakes(c));
    for tag in 0u8..10 {
        let a = account(tag);
        assert_eq!(c.staked_addresses().contains(&a), c.staking_position(&a).is_some());
        if let Some(p) = c.staking_position(&a) {
            assert!(!p.stake_amount.is_zero());
        }
    }
}

#[test]
fn init_gives_an_empty_ledger() {
    let c = StakingContract::init();
    assert_eq!(
        *c.staking_total(),
        StakingTotal {
            stake_amount: BigUint::zero(),
            last_action_block: 0,
            last_action_block_timestamp: 0
        }
    );
    assert!(c.staked_addresses().is_empty());
    assert!(c.staking_position(&account(1)).is_none());
    assert_eq!(c.apy(), 0);
    check_consistent(&c);
}

#[test]
fn stake_then_query_rewards() {
    let x = account(1);
    let mut c = StakingContract::init();
    let transfers = c.stake(&at(x, 10), units(1000)).unwrap();
    assert!(transfers.is_empty());
    assert!(c.calculate_rewards_for_user(&x, 10).is_zero());
    assert_eq!(
        c.calculate_rewards_for_user(&x, 20),
        units(1000).mul_u64(REWARD_PER_BLOCK).mul_u64(10)
    );
    assert_eq!(c.calculate_rewards_for_user(&x, 20).to_u64(), Some(3_000_000_000_000_000_000));
    // the query changes nothing
    assert_eq!(c.staking_position(&x).unwrap().last_action_block, 10);
}

#[test]
fn stake_claim_then_unstake_all() {
    let x = account(1);
    let mut c = StakingContract::init();
    c.stake(&at(x, 10), units(1000)).unwrap();

    let claimed = c.claim_rewards(&at(x, 15)).unwrap();
    assert_eq!(claimed, vec![pay(x, units(1000).mul_u64(REWARD_PER_BLOCK).mul_u64(5))]);
    assert_eq!(claimed[0].amount.to_u64(), Some(1_500_000_000_000_000_000));
    let position = c.staking_position(&x).unwrap();
    assert_eq!(position.stake_amount, units(1000));
    assert_eq!(position.last_action_block, 15);

    let unstaked = c.unstake(&at(x, 20), Some(units(1000))).unwrap();
    assert_eq!(
        unstaked,
        vec![pay(x, units(1000).mul_u64(REWARD_PER_BLOCK).mul_u64(5)), pay(x, units(1000))]
    );
    assert!(c.staking_position(&x).is_none());
    assert!(!c.staked_addresses().contains(&x));
    assert!(c.staked_addresses().is_empty());
    assert!(c.staking_total().stake_amount.is_zero());
    check_consistent(&c);
}

#[test]
fn calls_without_a_position_are_refused() {
    let y = account(2);
    let mut c = StakingContract::init();
    c.stake(&at(account(1), 10), units(5)).unwrap();
    assert_eq!(c.unstake(&at(y, 11), None), Err(StakingError::NotStaked));
    assert_eq!(c.unstake(&at(y, 11), Some(units(1))), Err(StakingError::NotStaked));
    assert_eq!(c.unstake(&at(y, 11), Some(units(0))), Err(StakingError::NotStaked));
    assert_eq!(c.claim_rewards(&at(y, 11)), Err(StakingError::NotStaked));
    assert_eq!(c.require_user_staked(&y), Err(StakingError::NotStaked));
    assert_eq!(c.require_user_staked(&account(1)), Ok(()));
    assert!(c.staking_position(&y).is_none());
    assert_eq!(c.staking_total().stake_amount, units(5));
}

#[test]
fn stake_of_zero_is_refused() {
    let x = account(1);
    let mut c = StakingContract::init();
    assert_eq!(c.stake(&at(x, 10), units(0)), Err(StakingError::InvalidPayment));
    assert!(c.staked_addresses().is_empty());
    assert!(c.staking_position(&x).is_none());
    assert_eq!(
        *c.staking_total(),
        StakingTotal {
            stake_amount: BigUint::zero(),
            last_action_block: 0,
            last_action_block_timestamp: 0
        }
    );

    c.stake(&at(x, 500), units(1000)).unwrap();
    let total = c.staking_total().clone();
    assert_eq!(c.stake(&at(x, 900), units(0)), Err(StakingError::InvalidPayment));
    assert_eq!(*c.staking_total(), total);
    assert_eq!(c.staking_position(&x).unwrap().last_action_block, 500);
}

#[test]
fn unstake_of_more_than_the_stake_is_refused() {
    let x = account(1);
    let mut c = StakingContract::init();
    c.stake(&at(x, 10), units(1000)).unwrap();
    let position = c.staking_position(&x).unwrap().clone();
    let total = c.staking_total().clone();
    assert_eq!(c.unstake(&at(x, 30), Some(units(1500))), Err(StakingError::InvalidUnstakeAmount));
    assert_eq!(c.unstake(&at(x, 30), Some(units(1001))), Err(StakingError::InvalidUnstakeAmount));
    assert_eq!(*c.staking_position(&x).unwrap(), position);
    assert_eq!(*c.staking_total(), total);
    assert!(c.staked_addresses().contains(&x));
}

#[test]
fn unstake_of_zero_is_refused() {
    let x = account(1);
    let mut c = StakingContract::init();
    c.stake(&at(x, 10), units(1000)).unwrap();
    assert_eq!(c.unstake(&at(x, 30), Some(units(0))), Err(StakingError::InvalidUnstakeAmount));
    assert_eq!(c.staking_position(&x).unwrap().last_action_block, 10);
}

#[test]
fn error_messages() {
    assert_eq!(StakingError::InvalidPayment.message(), "Must pay more than 0");
    assert_eq!(StakingError::NotStaked.message(), "Must stake first");
    assert_eq!(StakingError::InvalidUnstakeAmount.message(), "Invalid unstake amount");
}

#[test]
fn first_stake_opens_a_position() {
    let x = account(1);
    let mut c = StakingContract::init();
    let ctx = CallContext { caller: x, block_nonce: 1234, block_epoch: 7, block_timestamp: 99 };
    assert_eq!(c.stake(&ctx, units(50)), Ok(vec![]));
    assert_eq!(
        *c.staking_position(&x).unwrap(),
        StakingPosition {
            stake_amount: units(50),
            last_action_block: 1234,
            last_action_block_timestamp: 99
        }
    );
    assert_eq!(
        *c.staking_total(),
        StakingTotal { stake_amount: units(50), last_action_block: 7, last_action_block_timestamp: 99 }
    );
    assert_eq!(c.staked_addresses().to_vec(), vec![x]);
}

#[test]
fn first_stake_pays_nothing_even_when_the_epoch_is_far_behind_the_height() {
    let x = account(1);
    let mut c = StakingContract::init();
    let ctx = CallContext { caller: x, block_nonce: 1_000_000, block_epoch: 3, block_timestamp: 0 };
    assert_eq!(c.stake(&ctx, units(50)), Ok(vec![]));
    assert_eq!(c.staking_position(&x).unwrap().last_action_block, 1_000_000);
}

#[test]
fn second_stake_settles_the_reward_first() {
    let x = account(1);
    let mut c = StakingContract::init();
    c.stake(&CallContext { caller: x, block_nonce: 10, block_epoch: 1, block_timestamp: 60 }, units(1000))
        .unwrap();
    let transfers = c
        .stake(&CallContext { caller: x, block_nonce: 14, block_epoch: 2, block_timestamp: 84 }, units(500))
        .unwrap();
    // the reward is that of the old stake over four blocks
    assert_eq!(transfers, vec![pay(x, units(1000 * 4).mul_u64(REWARD_PER_BLOCK))]);
    assert_eq!(
        *c.staking_position(&x).unwrap(),
        StakingPosition {
            stake_amount: units(1500),
            last_action_block: 14,
            last_action_block_timestamp: 60
        }
    );
    assert_eq!(
        *c.staking_total(),
        StakingTotal { stake_amount: units(1500), last_action_block: 2, last_action_block_timestamp: 84 }
    );
    assert_eq!(c.staked_addresses().len(), 1);
}

#[test]
fn second_stake_in_the_same_block_pays_nothing() {
    let x = account(1);
    let mut c = StakingContract::init();
    c.stake(&at(x, 10), units(1000)).unwrap();
    assert_eq!(c.stake(&at(x, 10), units(1)), Ok(vec![]));
    assert_eq!(c.staking_position(&x).unwrap().stake_amount, units(1001));
}

#[test]
fn partial_unstake_keeps_the_position() {
    let x = account(1);
    let mut c = StakingContract::init();
    c.stake(&CallContext { caller: x, block_nonce: 10, block_epoch: 1, block_timestamp: 60 }, units(1000))
        .unwrap();
    let transfers = c
        .unstake(
            &CallContext { caller: x, block_nonce: 12, block_epoch: 5, block_timestamp: 72 },
            Some(units(400)),
        )
        .unwrap();
    assert_eq!(transfers, vec![pay(x, units(2000).mul_u64(REWARD_PER_BLOCK)), pay(x, units(400))]);
    assert_eq!(
        *c.staking_position(&x).unwrap(),
        StakingPosition {
            stake_amount: units(600),
            last_action_block: 12,
            last_action_block_timestamp: 60
        }
    );
    // an unstake leaves the block and the timestamp of the aggregate alone
    assert_eq!(
        *c.staking_total(),
        StakingTotal { stake_amount: units(600), last_action_block: 1, last_action_block_timestamp: 60 }
    );
    assert!(c.staked_addresses().contains(&x));
    check_consistent(&c);
}

#[test]
fn unstake_without_an_amount_takes_the_whole_stake() {
    let x = account(1);
    let mut c = StakingContract::init();
    c.stake(&at(x, 10), units(1000)).unwrap();
    let transfers = c.unstake(&at(x, 10), None).unwrap();
    assert_eq!(transfers, vec![pay(x, units(1000))]);
    assert!(c.staking_position(&x).is_none());
    assert!(!c.staked_addresses().contains(&x));
}

#[test]
fn after_a_full_unstake_the_address_has_not_staked() {
    let x = account(1);
    let y = account(2);
    let mut c = StakingContract::init();
    c.stake(&at(x, 10), units(1000)).unwrap();
    c.stake(&at(y, 11), units(10)).unwrap();
    c.unstake(&at(x, 20), None).unwrap();
    assert_eq!(c.claim_rewards(&at(x, 21)), Err(StakingError::NotStaked));
    assert_eq!(c.unstake(&at(x, 21), Some(units(1))), Err(StakingError::NotStaked));
    assert_eq!(c.unstake(&at(x, 21), None), Err(StakingError::NotStaked));
    assert_eq!(c.staked_addresses().to_vec(), vec![y]);
    assert_eq!(c.staking_total().stake_amount, units(10));
    // it can come back
    assert_eq!(c.stake(&at(x, 30), units(3)), Ok(vec![]));
    assert_eq!(c.staking_position(&x).unwrap().last_action_block, 30);
    check_consistent(&c);
}

#[test]
fn claim_keeps_the_stake() {
    let x = account(1);
    let mut c = StakingContract::init();
    c.stake(&at(x, 10), units(1000)).unwrap();
    let total = c.staking_total().clone();
    for block in [10u64, 11, 50, 50, 49, 1000] {
        c.claim_rewards(&at(x, block)).unwrap();
        assert_eq!(c.staking_position(&x).unwrap().stake_amount, units(1000));
        assert_eq!(c.staking_position(&x).unwrap().last_action_block, block);
        assert_eq!(*c.staking_total(), total);
    }
}

#[test]
fn claim_in_the_block_of_the_last_action_pays_nothing() {
    let x = account(1);
    let mut c = StakingContract::init();
    c.stake(&at(x, 10), units(1000)).unwrap();
    assert_eq!(c.claim_rewards(&at(x, 10)), Ok(vec![]));
    assert_eq!(c.claim_rewards(&at(x, 12)), Ok(vec![pay(x, units(2000).mul_u64(REWARD_PER_BLOCK))]));
    assert_eq!(c.claim_rewards(&at(x, 12)), Ok(vec![]));
    // a clock that runs backwards pays nothing and moves the mark back
    assert_eq!(c.claim_rewards(&at(x, 5)), Ok(vec![]));
    assert_eq!(c.staking_position(&x).unwrap().last_action_block, 5);
}

#[test]
fn the_total_is_the_sum_of_the_positions() {
    let mut c = StakingContract::init();
    let mut block = 100u64;
    for round in 0u64..6 {
        for tag in 1u8..6 {
            block += 3;
            let who = account(tag);
            match (round + tag as u64) % 4 {
                0 | 1 => {
                    c.stake(&at(who, block), units(100 * tag as u64 + round)).unwrap();
                },
                2 => {
                    let _ = c.unstake(&at(who, block), Some(units(50)));
                },
                _ => {
                    let _ = c.unstake(&at(who, block), None);
                },
            }
            let _ = c.claim_rewards(&at(who, block + 1));
            check_consistent(&c);
        }
    }
    assert!(!c.staked_addresses().is_empty());
}

#[test]
fn rewards_of_several_stakers_are_their_own() {
    let x = account(1);
    let y = account(2);
    let mut c = StakingContract::init();
    c.stake(&at(x, 10), units(1000)).unwrap();
    c.stake(&at(y, 20), units(3)).unwrap();
    assert_eq!(c.calculate_rewards_for_user(&x, 30), units(20_000).mul_u64(REWARD_PER_BLOCK));
    assert_eq!(c.calculate_rewards_for_user(&y, 30), units(30).mul_u64(REWARD_PER_BLOCK));
    assert_eq!(c.claim_rewards(&at(y, 30)), Ok(vec![pay(y, units(30).mul_u64(REWARD_PER_BLOCK))]));
    assert_eq!(c.calculate_rewards_for_user(&x, 30), units(20_000).mul_u64(REWARD_PER_BLOCK));
    assert_eq!(c.staking_total().stake_amount, units(1003));
}

#[test]
fn stakes_beyond_sixty_four_bits() {
    let x = account(1);
    let mut c = StakingContract::init();
    let large = BigUint::from_bytes_be(&[1, 0, 0, 0, 0, 0, 0, 0, 0, 0, 0, 0, 0]);
    c.stake(&at(x, 1), large.clone()).unwrap();
    c.stake(&at(x, 1), large.clone()).unwrap();
    assert_eq!(c.staking_total().stake_amount, large.mul_u64(2));
    let transfers = c.unstake(&at(x, 3), Some(large.clone())).unwrap();
    assert_eq!(
        transfers,
        vec![pay(x, large.mul_u64(2).mul_u64(REWARD_PER_BLOCK).mul_u64(2)), pay(x, large.clone())]
    );
    assert_eq!(c.staking_position(&x).unwrap().stake_amount, large);
    check_consistent(&c);
}

#[test]
fn settlement_of_a_position() {
    let x = account(1);
    let mut position = StakingPosition {
        stake_amount: units(10),
        last_action_block: 100,
        last_action_block_timestamp: 5,
    };
    let transfers = StakingContract::claim_rewards_for_user(&x, &mut position, 103);
    assert_eq!(transfers, vec![pay(x, units(30).mul_u64(REWARD_PER_BLOCK))]);
    assert_eq!(
        position,
        StakingPosition {
            stake_amount: units(10),
            last_action_block: 103,
            last_action_block_timestamp: 5
        }
    );
    let again = StakingContract::claim_rewards_for_user(&x, &mut position, 103);
    assert!(again.is_empty());
}

#[test]
fn apy_is_stored_and_read_by_nothing() {
    let x = account(1);
    let mut c = StakingContract::init();
    c.stake(&at(x, 10), units(1000)).unwrap();
    let before = c.calculate_rewards_for_user(&x, 20);
    c.set_apy(2_500);
    assert_eq!(c.apy(), 2_500);
    assert_eq!(c.calculate_rewards_for_user(&x, 20), before);
    assert_eq!(c.staking_total().stake_amount, units(1000));
}
