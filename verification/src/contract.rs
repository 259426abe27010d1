//! The staking contract: a ledger of positions with the calls that change
//! it.

use crate::address::Address;
use crate::biguint::BigUint;
use crate::model::{
    claim_outcome, consistent, initial_state, position_of, reward_of, reward_transfers, settled,
    stake_outcome, state_after, unstake_outcome, with_position, Call, LedgerState,
};
use crate::positions::PositionStore;
use crate::registry::AddressRegistry;
use crate::types::{
    amount_view, position_view, transfers_view, CallContext, StakingError, StakingPosition,
    StakingTotal, Transfer, REWARD_PER_BLOCK,
};
use vstd::prelude::*;

verus! {

/// The ledger of the staking contract: the positions, the registry of
/// stakers, the aggregate and the stored APY.
#[derive(Debug)]
pub struct StakingContract {
    staking_total: StakingTotal,
    staked_addresses: AddressRegistry,
    positions: PositionStore,
    apy: u64,
}

impl View for StakingContract {
    type V = LedgerState;

    closed spec fn view(&self) -> LedgerState {
        LedgerState {
            positions: self.positions@,
            staked_addresses: self.staked_addresses@,
            total: self.staking_total@,
            apy: self.apy,
        }
    }
}

impl StakingContract {
    /// The registry and the store of positions are well formed.
    pub closed spec fn stores_wf(&self) -> bool {
        self.staked_addresses.wf() && self.positions.wf()
    }

    /// The ledger is well formed: its stores are, and its state is
    /// consistent.
    pub open spec fn wf(&self) -> bool {
        self.stores_wf() && consistent(self@)
    }

    /// A new ledger: no position, no staker, a total of zero.
    pub fn init() -> (r: StakingContract)
        ensures
            r.wf(),
            r@ == initial_state(),
    {
        let r = StakingContract {
            staking_total: StakingTotal {
                stake_amount: BigUint::zero(),
                last_action_block: 0,
                last_action_block_timestamp: 0,
            },
            staked_addresses: AddressRegistry::new(),
            positions: PositionStore::new(),
            apy: 0,
        };
        proof {
            crate::model::lemma_initial_state_consistent();
        }
        r
    }

    /// The reward that the position has earned at `current_block`: its
    /// stake times the rate per block times the blocks since its last
    /// action, and nothing before the block after that action.
    pub fn calculate_rewards(staking_position: &StakingPosition, current_block: u64) -> (r: BigUint)
        ensures
            r@ == reward_of(staking_position@, current_block),
    {
        if current_block <= staking_position.last_action_block {
            return BigUint::zero();
        }
        let block_diff = current_block - staking_position.last_action_block;
        staking_position.stake_amount.mul_u64(REWARD_PER_BLOCK).mul_u64(block_diff)
    }

    /// Settles the reward of the position at `current_block`: the position
    /// is marked as settled there, and the reward, where there is one, is
    /// returned as a transfer to `user`.
    pub fn claim_rewards_for_user(
        user: &Address,
        staking_pos: &mut StakingPosition,
        current_block: u64,
    ) -> (r: Vec<Transfer>)
        ensures
            final(staking_pos)@ == settled(old(staking_pos)@, current_block),
            transfers_view(r@) == reward_transfers(
                *user,
                reward_of(old(staking_pos)@, current_block),
            ),
    {
        let reward_amount = Self::calculate_rewards(staking_pos, current_block);
        staking_pos.last_action_block = current_block;
        let mut transfers: Vec<Transfer> = Vec::new();
        if !reward_amount.is_zero() {
            transfers.push(Transfer { to: *user, amount: reward_amount });
        }
        assert(transfers_view(transfers@) =~= reward_transfers(
            *user,
            reward_of(old(staking_pos)@, current_block),
        ));
        transfers
    }

    /// Whether `user` is registered as a staker.
    pub fn require_user_staked(&self, user: &Address) -> (r: Result<(), StakingError>)
        ensures
            r == if self@.staked_addresses.contains(*user) {
                Ok::<(), StakingError>(())
            } else {
                Err::<(), StakingError>(StakingError::NotStaked)
            },
    {
        if self.staked_addresses.contains(user) {
            Ok(())
        } else {
            Err(StakingError::NotStaked)
        }
    }

    /// The position of `addr`, where `addr` is registered.
    fn caller_position(&self, addr: &Address) -> (r: Option<StakingPosition>)
        requires
            self.wf(),
        ensures
            position_view(r) == position_of(self@, *addr),
    {
        match self.require_user_staked(addr) {
            Ok(()) => Some(self.positions.get(addr).unwrap().clone()),
            Err(_) => None,
        }
    }

    /// Gives `addr` the position `position` and registers it, or drops its
    /// position and its registry entry where `position` is none.
    fn put_position(&mut self, addr: Address, position: Option<StakingPosition>)
        requires
            old(self).stores_wf(),
        ensures
            final(self).stores_wf(),
            final(self)@ == with_position(old(self)@, addr, position_view(position)),
    {
        match position {
            Some(p) => {
                self.positions.set(addr, p);
                self.staked_addresses.insert(addr);
            },
            None => {
                self.positions.clear(&addr);
                self.staked_addresses.swap_remove(&addr);
            },
        }
    }

    /// Adds `payment_amount` to the stake of the caller, after settling the
    /// reward that its position has earned. Returns the transfers that the
    /// host has to carry out. A payment of zero is refused, and a refused
    /// call changes nothing.
    pub fn stake(&mut self, ctx: &CallContext, payment_amount: BigUint) -> (r: Result<
        Vec<Transfer>,
        StakingError,
    >)
        requires
            old(self).wf(),
        ensures
            final(self).wf(),
            final(self)@ == state_after(
                old(self)@,
                Call::Stake { ctx: *ctx, payment: payment_amount@ },
            ),
            match stake_outcome(old(self)@, *ctx, payment_amount@) {
                Ok(outcome) => r is Ok && final(self)@ == outcome.state && transfers_view(
                    r->Ok_0@,
                ) == outcome.transfers,
                Err(e) => r is Err && r->Err_0 == e && final(self)@ == old(self)@,
            },
    {
        let position = self.caller_position(&ctx.caller);
        match crate::step::stake(position, &mut self.staking_total, ctx, payment_amount) {
            Ok(update) => {
                self.put_position(ctx.caller, update.position);
                proof {
                    crate::model::lemma_stake_keeps_consistent(old(self)@, *ctx, payment_amount@);
                }
                Ok(update.transfers)
            },
            Err(e) => Err(e),
        }
    }

    /// Withdraws from the stake of the caller, after settling the reward
    /// that its position has earned: `opt_unstake_amount` where it is given,
    /// else the whole stake. A position that is left empty is removed with
    /// its registry entry. Returns the transfers that the host has to carry
    /// out: the reward, where there is one, then the amount withdrawn. The
    /// call is refused where the caller has not staked, and where the amount
    /// is zero or more than its stake; a refused call changes nothing.
    pub fn unstake(&mut self, ctx: &CallContext, opt_unstake_amount: Option<BigUint>) -> (r: Result<
        Vec<Transfer>,
        StakingError,
    >)
        requires
            old(self).wf(),
        ensures
            final(self).wf(),
            final(self)@ == state_after(
                old(self)@,
                Call::Unstake { ctx: *ctx, amount: amount_view(opt_unstake_amount) },
            ),
            match unstake_outcome(old(self)@, *ctx, amount_view(opt_unstake_amount)) {
                Ok(outcome) => r is Ok && final(self)@ == outcome.state && transfers_view(
                    r->Ok_0@,
                ) == outcome.transfers,
                Err(e) => r is Err && r->Err_0 == e && final(self)@ == old(self)@,
            },
    {
        let position = self.caller_position(&ctx.caller);
        proof {
            if position is Some {
                crate::model::lemma_total_staked_split(old(self)@.positions, ctx.caller);
            }
        }
        match crate::step::unstake(position, &mut self.staking_total, ctx, opt_unstake_amount) {
            Ok(update) => {
                self.put_position(ctx.caller, update.position);
                proof {
                    crate::model::lemma_unstake_keeps_consistent(
                        old(self)@,
                        *ctx,
                        amount_view(opt_unstake_amount),
                    );
                }
                Ok(update.transfers)
            },
            Err(e) => Err(e),
        }
    }

    /// Settles the reward that the position of the caller has earned, and
    /// leaves its stake as it is. Returns the transfers that the host has to
    /// carry out. The call is refused where the caller has not staked; a
    /// refused call changes nothing.
    pub fn claim_rewards(&mut self, ctx: &CallContext) -> (r: Result<Vec<Transfer>, StakingError>)
        requires
            old(self).wf(),
        ensures
            final(self).wf(),
            final(self)@ == state_after(old(self)@, Call::ClaimRewards { ctx: *ctx }),
            match claim_outcome(old(self)@, *ctx) {
                Ok(outcome) => r is Ok && final(self)@ == outcome.state && transfers_view(
                    r->Ok_0@,
                ) == outcome.transfers,
                Err(e) => r is Err && r->Err_0 == e && final(self)@ == old(self)@,
            },
    {
        let position = self.caller_position(&ctx.caller);
        match crate::step::claim_rewards(position, ctx) {
            Ok(update) => {
                self.put_position(ctx.caller, update.position);
                proof {
                    crate::model::lemma_claim_keeps_consistent(old(self)@, *ctx);
                }
                Ok(update.transfers)
            },
            Err(e) => Err(e),
        }
    }

    /// The reward that the position of `addr` has earned at
    /// `current_block`. Nothing changes.
    pub fn calculate_rewards_for_user(&self, addr: &Address, current_block: u64) -> (r: BigUint)
        requires
            self.wf(),
            self@.positions.contains_key(*addr),
        ensures
            r@ == reward_of(self@.positions[*addr], current_block),
    {
        let staking_pos = self.positions.get(addr).unwrap();
        Self::calculate_rewards(staking_pos, current_block)
    }

    /// The registry of the addresses that have staked.
    pub fn staked_addresses(&self) -> (r: &AddressRegistry)
        requires
            self.wf(),
        ensures
            r.wf(),
            r@ == self@.staked_addresses,
    {
        &self.staked_addresses
    }

    /// The position of `addr`, if it has one.
    pub fn staking_position(&self, addr: &Address) -> (r: Option<&StakingPosition>)
        requires
            self.wf(),
        ensures
            match r {
                Some(position) => self@.positions.contains_key(*addr) && position@
                    == self@.positions[*addr],
                None => !self@.positions.contains_key(*addr),
            },
    {
        self.positions.get(addr)
    }

    /// The stored APY. No reward depends on it.
    pub fn apy(&self) -> (r: u64)
        ensures
            r == self@.apy,
    {
        self.apy
    }

    /// Stores `apy`, and changes nothing else.
    pub fn set_apy(&mut self, apy: u64)
        requires
            old(self).wf(),
        ensures
            final(self).wf(),
            final(self)@ == (LedgerState { apy, ..old(self)@ }),
            final(self)@ == state_after(old(self)@, Call::SetApy { apy }),
    {
        self.apy = apy;
    }

    /// The aggregate record.
    pub fn staking_total(&self) -> (r: &StakingTotal)
        ensures
            r@ == self@.total,
    {
        &self.staking_total
    }
}

} // verus!
