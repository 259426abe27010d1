//! What one call makes of the position of its caller and of the aggregate.
//! These functions read and write nothing else, so a host that keeps each
//! position in a place of its own can serve a call with them.

use crate::biguint::BigUint;
use crate::contract::StakingContract;
use crate::model::{
    claim_step, stake_step, total_after_stake, total_after_unstake, unstake_step,
    withdrawn_amount, Step,
};
use crate::types::{
    amount_view, position_view, transfers_view, CallContext, StakingError, StakingPosition,
    StakingTotal, Transfer,
};
use vstd::prelude::*;

verus! {

/// What a call that succeeds hands back: the position that the caller has
/// from now on, if any, and the transfers that the host has to carry out, in
/// this order.
#[derive(Debug)]
pub struct Update {
    pub position: Option<StakingPosition>,
    pub transfers: Vec<Transfer>,
}

impl View for Update {
    type V = Step;

    open spec fn view(&self) -> Step {
        Step {
            position: position_view(self.position),
            transfers: transfers_view(self.transfers@),
        }
    }
}

/// Adds `payment_amount` to `position`, the position of the caller, or to a
/// new one where it has none, after settling the reward at the current block
/// height, and adds it to `total`. A payment of zero is refused, and a
/// refused call leaves `total` as it is.
pub fn stake(
    position: Option<StakingPosition>,
    total: &mut StakingTotal,
    ctx: &CallContext,
    payment_amount: BigUint,
) -> (r: Result<Update, StakingError>)
    ensures
        match stake_step(position_view(position), *ctx, payment_amount@) {
            Ok(step) => r is Ok && r->Ok_0@ == step && final(total)@ == total_after_stake(
                old(total)@,
                *ctx,
                payment_amount@,
            ),
            Err(e) => r is Err && r->Err_0 == e && final(total)@ == old(total)@,
        },
{
    if payment_amount.is_zero() {
        return Err(StakingError::InvalidPayment);
    }
    let mut staking_pos = match position {
        Some(existing) => existing,
        None => StakingPosition {
            stake_amount: BigUint::zero(),
            last_action_block: ctx.block_epoch,
            last_action_block_timestamp: ctx.block_timestamp,
        },
    };
    proof {
        crate::reward::lemma_reward_zero_without_stake(ctx.block_epoch, ctx.block_nonce);
    }
    let transfers = StakingContract::claim_rewards_for_user(
        &ctx.caller,
        &mut staking_pos,
        ctx.block_nonce,
    );
    staking_pos.stake_amount = staking_pos.stake_amount.add(&payment_amount);
    total.stake_amount = total.stake_amount.add(&payment_amount);
    total.last_action_block = ctx.block_epoch;
    total.last_action_block_timestamp = ctx.block_timestamp;
    Ok(Update { position: Some(staking_pos), transfers })
}

/// Withdraws from `position`, the position of the caller, after settling the
/// reward at the current block height, and takes the amount out of `total`:
/// `opt_unstake_amount` where it is given, else the whole stake. The
/// transfers are the reward, where there is one, and then the amount
/// withdrawn. The call is refused where the caller has no position, and
/// where the amount is zero or more than the stake; a refused call leaves
/// `total` as it is.
pub fn unstake(
    position: Option<StakingPosition>,
    total: &mut StakingTotal,
    ctx: &CallContext,
    opt_unstake_amount: Option<BigUint>,
) -> (r: Result<Update, StakingError>)
    requires
        position is Some ==> position->0@.stake_amount <= old(total)@.stake_amount,
    ensures
        match unstake_step(position_view(position), *ctx, amount_view(opt_unstake_amount)) {
            Ok(step) => r is Ok && r->Ok_0@ == step && final(total)@ == total_after_unstake(
                old(total)@,
                withdrawn_amount(position->0@, amount_view(opt_unstake_amount)),
            ),
            Err(e) => r is Err && r->Err_0 == e && final(total)@ == old(total)@,
        },
{
    let mut staking_pos = match position {
        Some(existing) => existing,
        None => {
            return Err(StakingError::NotStaked);
        },
    };
    let unstake_amount = match opt_unstake_amount {
        Some(amount) => amount,
        None => staking_pos.stake_amount.clone(),
    };
    if unstake_amount.is_zero() || !unstake_amount.le(&staking_pos.stake_amount) {
        return Err(StakingError::InvalidUnstakeAmount);
    }
    let mut transfers = StakingContract::claim_rewards_for_user(
        &ctx.caller,
        &mut staking_pos,
        ctx.block_nonce,
    );
    staking_pos.stake_amount = staking_pos.stake_amount.sub(&unstake_amount);
    total.stake_amount = total.stake_amount.sub(&unstake_amount);
    let ghost rewards = transfers@;
    transfers.push(Transfer { to: ctx.caller, amount: unstake_amount });
    assert(transfers_view(transfers@) =~= transfers_view(rewards).push(transfers@.last()@));
    if staking_pos.stake_amount.is_zero() {
        Ok(Update { position: None, transfers })
    } else {
        Ok(Update { position: Some(staking_pos), transfers })
    }
}

/// Settles the reward of `position`, the position of the caller, at the
/// current block height, and leaves its stake as it is. The call is refused
/// where the caller has no position.
pub fn claim_rewards(position: Option<StakingPosition>, ctx: &CallContext) -> (r: Result<
    Update,
    StakingError,
>)
    ensures
        match claim_step(position_view(position), *ctx) {
            Ok(step) => r is Ok && r->Ok_0@ == step,
            Err(e) => r is Err && r->Err_0 == e,
        },
{
    let mut staking_pos = match position {
        Some(existing) => existing,
        None => {
            return Err(StakingError::NotStaked);
        },
    };
    let transfers = StakingContract::claim_rewards_for_user(
        &ctx.caller,
        &mut staking_pos,
        ctx.block_nonce,
    );
    Ok(Update { position: Some(staking_pos), transfers })
}

} // verus!
