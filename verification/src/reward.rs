//! The reward that a position has earned: a flat rate per staked unit and
//! block.

use crate::types::REWARD_PER_BLOCK;
use vstd::prelude::*;

verus! {

/// The reward that `stake_amount` has earned at `current_block` since
/// `last_action_block`. Nothing is earned in the block of the last action or
/// when the clock stands before it.
pub open spec fn accrued_reward(
    stake_amount: nat,
    last_action_block: u64,
    current_block: u64,
) -> nat {
    if current_block <= last_action_block {
        0
    } else {
        stake_amount * REWARD_PER_BLOCK as nat * (current_block - last_action_block) as nat
    }
}

/// No reward is due at or before the block of the last action.
pub proof fn lemma_reward_zero_until_next_block(
    stake_amount: nat,
    last_action_block: u64,
    current_block: u64,
)
    requires
        current_block <= last_action_block,
    ensures
        accrued_reward(stake_amount, last_action_block, current_block) == 0,
{
}

/// An empty stake earns nothing, however many blocks pass.
pub proof fn lemma_reward_zero_without_stake(last_action_block: u64, current_block: u64)
    ensures
        accrued_reward(0, last_action_block, current_block) == 0,
{
    assert(0 * REWARD_PER_BLOCK as nat * (current_block - last_action_block) as nat == 0)
        by (nonlinear_arith);
}

/// For a fixed stake and last action, the reward never shrinks as the
/// current block grows.
pub proof fn lemma_reward_monotonic(
    stake_amount: nat,
    last_action_block: u64,
    earlier: u64,
    later: u64,
)
    requires
        earlier <= later,
    ensures
        accrued_reward(stake_amount, last_action_block, earlier) <= accrued_reward(
            stake_amount,
            last_action_block,
            later,
        ),
{
    if earlier > last_action_block {
        let rate = stake_amount * REWARD_PER_BLOCK as nat;
        let d1 = (earlier - last_action_block) as nat;
        let d2 = (later - last_action_block) as nat;
        assert(rate * d1 <= rate * d2) by (nonlinear_arith)
            requires
                d1 <= d2,
        ;
    }
}

/// The reward is proportional to the stake: `factor` times the stake earns
/// `factor` times the reward.
pub proof fn lemma_reward_linear_in_stake(
    stake_amount: nat,
    factor: nat,
    last_action_block: u64,
    current_block: u64,
)
    ensures
        accrued_reward(factor * stake_amount, last_action_block, current_block) == factor
            * accrued_reward(stake_amount, last_action_block, current_block),
{
    if current_block > last_action_block {
        let r = REWARD_PER_BLOCK as nat;
        let d = (current_block - last_action_block) as nat;
        assert((factor * stake_amount) * r * d == factor * (stake_amount * r * d))
            by (nonlinear_arith);
    }
}

/// The reward is proportional to the blocks that have passed: `factor`
/// times the blocks earn `factor` times the reward.
pub proof fn lemma_reward_linear_in_blocks(
    stake_amount: nat,
    factor: nat,
    last_action_block: u64,
    current_block: u64,
    scaled_block: u64,
)
    requires
        last_action_block <= current_block,
        scaled_block - last_action_block == factor * (current_block - last_action_block),
    ensures
        accrued_reward(stake_amount, last_action_block, scaled_block) == factor * accrued_reward(
            stake_amount,
            last_action_block,
            current_block,
        ),
{
    let r = REWARD_PER_BLOCK as nat;
    let d = (current_block - last_action_block) as nat;
    let e = (scaled_block - last_action_block) as int;
    if d == 0 {
        assert(factor * 0 == 0) by (nonlinear_arith);
    } else if factor == 0 {
        assert(0 * d == 0) by (nonlinear_arith);
        assert(0 * (stake_amount * r * d) == 0) by (nonlinear_arith);
    } else {
        assert(factor * d >= 1) by (nonlinear_arith)
            requires
                factor >= 1,
                d >= 1,
        ;
        assert(stake_amount * r * (factor * d) == factor * (stake_amount * r * d))
            by (nonlinear_arith);
    }
}

/// The reward is additive in the stake: two stakes earn together what they
/// earn apart.
pub proof fn lemma_reward_additive_in_stake(
    first: nat,
    second: nat,
    last_action_block: u64,
    current_block: u64,
)
    ensures
        accrued_reward(first + second, last_action_block, current_block) == accrued_reward(
            first,
            last_action_block,
            current_block,
        ) + accrued_reward(second, last_action_block, current_block),
{
    if current_block > last_action_block {
        let r = REWARD_PER_BLOCK as nat;
        let d = (current_block - last_action_block) as nat;
        assert((first + second) * r * d == first * r * d + second * r * d) by (nonlinear_arith);
    }
}

} // verus!
