//! The ledger as a mathematical object: its state, what each call makes of
//! it, and the properties that every reachable state has.

use crate::address::Address;
use crate::reward::accrued_reward;
use crate::types::{CallContext, PositionView, StakingError, TotalView, TransferView};
use vstd::prelude::*;

verus! {

/// The state of the ledger between two calls.
pub ghost struct LedgerState {
    /// The position of each address that has one.
    pub positions: Map<Address, PositionView>,
    /// The addresses registered as stakers.
    pub staked_addresses: Set<Address>,
    /// The aggregate record.
    pub total: TotalView,
    /// A stored figure that no computation reads.
    pub apy: u64,
}

/// What a call that succeeds leaves behind: the new state and the transfers
/// that the host carries out, in this order.
pub ghost struct Outcome {
    pub state: LedgerState,
    pub transfers: Seq<TransferView>,
}

/// The state of a new ledger: no position, no staker, a total of zero.
pub open spec fn initial_state() -> LedgerState {
    LedgerState {
        positions: Map::empty(),
        staked_addresses: Set::empty(),
        total: TotalView { stake_amount: 0, last_action_block: 0, last_action_block_timestamp: 0 },
        apy: 0,
    }
}

/// The sum of the staked amounts of all positions.
pub open spec fn total_staked(positions: Map<Address, PositionView>) -> nat
    decreases positions.dom().len(),
    when positions.dom().finite()
{
    if positions.dom().len() == 0 {
        0
    } else {
        let addr = positions.dom().choose();
        positions[addr].stake_amount + total_staked(positions.remove(addr))
    }
}

/// The state is consistent: the registry holds exactly the addresses with a
/// position, no position is empty, and the aggregate is the sum of the
/// positions.
pub open spec fn consistent(s: LedgerState) -> bool {
    &&& s.positions.dom().finite()
    &&& s.staked_addresses == s.positions.dom()
    &&& forall|addr: Address| #[trigger]
        s.positions.contains_key(addr) ==> s.positions[addr].stake_amount > 0
    &&& s.total.stake_amount == total_staked(s.positions)
}

/// The reward that the position has earned at `current_block`.
pub open spec fn reward_of(position: PositionView, current_block: u64) -> nat {
    accrued_reward(position.stake_amount, position.last_action_block, current_block)
}

/// The position after its reward was settled at `current_block`.
pub open spec fn settled(position: PositionView, current_block: u64) -> PositionView {
    PositionView { last_action_block: current_block, ..position }
}

/// The transfers that pay out `reward` to `to`: one, or none for a reward of
/// zero.
pub open spec fn reward_transfers(to: Address, reward: nat) -> Seq<TransferView> {
    if reward > 0 {
        seq![TransferView { to, amount: reward }]
    } else {
        Seq::empty()
    }
}

/// What a call makes of the position of its caller: the position that the
/// caller has afterwards, if any, and the transfers that the host carries
/// out, in this order.
pub ghost struct Step {
    pub position: Option<PositionView>,
    pub transfers: Seq<TransferView>,
}

/// What a stake of `payment` makes of the position of the caller. Where it
/// has one, the reward is settled at the current block height, and the
/// payment is added to the stake. Where it has none, it gets one that holds
/// the payment and is settled at the current block height, and nothing is
/// paid out. A payment of zero is refused.
pub open spec fn stake_step(position: Option<PositionView>, ctx: CallContext, payment: nat) -> Result<
    Step,
    StakingError,
> {
    if payment == 0 {
        Err(StakingError::InvalidPayment)
    } else {
        Ok(
            match position {
                Some(start) => Step {
                    position: Some(
                        PositionView {
                            stake_amount: start.stake_amount + payment,
                            ..settled(start, ctx.block_nonce)
                        },
                    ),
                    transfers: reward_transfers(ctx.caller, reward_of(start, ctx.block_nonce)),
                },
                None => Step {
                    position: Some(
                        PositionView {
                            stake_amount: payment,
                            last_action_block: ctx.block_nonce,
                            last_action_block_timestamp: ctx.block_timestamp,
                        },
                    ),
                    transfers: Seq::empty(),
                },
            },
        )
    }
}

/// The aggregate after a stake of `payment`: the payment is added, and the
/// aggregate is marked with the current epoch and timestamp.
pub open spec fn total_after_stake(total: TotalView, ctx: CallContext, payment: nat) -> TotalView {
    TotalView {
        stake_amount: total.stake_amount + payment,
        last_action_block: ctx.block_epoch,
        last_action_block_timestamp: ctx.block_timestamp,
    }
}

/// The amount that an unstake withdraws from `position`: the one asked for,
/// or the whole stake where none is given.
pub open spec fn withdrawn_amount(position: PositionView, amount: Option<nat>) -> nat {
    match amount {
        Some(a) => a,
        None => position.stake_amount,
    }
}

/// What an unstake makes of the position of the caller: the reward is
/// settled at the current block height, then the amount is taken out, and a
/// position that is left empty is dropped. The transfers are the reward,
/// where there is one, and then the amount withdrawn. The call is refused
/// where the caller has no position, and where the amount is zero or more
/// than the stake.
pub open spec fn unstake_step(
    position: Option<PositionView>,
    ctx: CallContext,
    amount: Option<nat>,
) -> Result<Step, StakingError> {
    match position {
        None => Err(StakingError::NotStaked),
        Some(start) => {
            let withdrawn = withdrawn_amount(start, amount);
            if withdrawn == 0 || withdrawn > start.stake_amount {
                Err(StakingError::InvalidUnstakeAmount)
            } else {
                Ok(
                    Step {
                        position: if withdrawn < start.stake_amount {
                            Some(
                                PositionView {
                                    stake_amount: (start.stake_amount - withdrawn) as nat,
                                    ..settled(start, ctx.block_nonce)
                                },
                            )
                        } else {
                            None
                        },
                        transfers: reward_transfers(
                            ctx.caller,
                            reward_of(start, ctx.block_nonce),
                        ).push(TransferView { to: ctx.caller, amount: withdrawn }),
                    },
                )
            }
        },
    }
}

/// The aggregate after an unstake of `withdrawn`: the amount is taken out,
/// and the block and the timestamp of the aggregate stay as they are.
pub open spec fn total_after_unstake(total: TotalView, withdrawn: nat) -> TotalView {
    TotalView { stake_amount: (total.stake_amount - withdrawn) as nat, ..total }
}

/// What a claim of rewards makes of the position of the caller: the reward
/// is settled at the current block height, and the stake stays as it is. The
/// call is refused where the caller has no position.
pub open spec fn claim_step(position: Option<PositionView>, ctx: CallContext) -> Result<
    Step,
    StakingError,
> {
    match position {
        None => Err(StakingError::NotStaked),
        Some(start) => Ok(
            Step {
                position: Some(settled(start, ctx.block_nonce)),
                transfers: reward_transfers(ctx.caller, reward_of(start, ctx.block_nonce)),
            },
        ),
    }
}

/// The position of `addr` in state `s`, if `addr` is registered.
pub open spec fn position_of(s: LedgerState, addr: Address) -> Option<PositionView> {
    if s.staked_addresses.contains(addr) {
        Some(s.positions[addr])
    } else {
        None
    }
}

/// The state in which `addr` has the position `position`, or none: an
/// address with a position is registered, one without is not.
pub open spec fn with_position(
    s: LedgerState,
    addr: Address,
    position: Option<PositionView>,
) -> LedgerState {
    match position {
        Some(p) => LedgerState {
            positions: s.positions.insert(addr, p),
            staked_addresses: s.staked_addresses.insert(addr),
            ..s
        },
        None => LedgerState {
            positions: s.positions.remove(addr),
            staked_addresses: s.staked_addresses.remove(addr),
            ..s
        },
    }
}

/// What a stake of `payment` by the caller does.
pub open spec fn stake_outcome(s: LedgerState, ctx: CallContext, payment: nat) -> Result<
    Outcome,
    StakingError,
> {
    match stake_step(position_of(s, ctx.caller), ctx, payment) {
        Ok(step) => Ok(
            Outcome {
                state: LedgerState {
                    total: total_after_stake(s.total, ctx, payment),
                    ..with_position(s, ctx.caller, step.position)
                },
                transfers: step.transfers,
            },
        ),
        Err(e) => Err(e),
    }
}

/// What an unstake by the caller does.
pub open spec fn unstake_outcome(s: LedgerState, ctx: CallContext, amount: Option<nat>) -> Result<
    Outcome,
    StakingError,
> {
    match unstake_step(position_of(s, ctx.caller), ctx, amount) {
        Ok(step) => Ok(
            Outcome {
                state: LedgerState {
                    total: total_after_unstake(
                        s.total,
                        withdrawn_amount(s.positions[ctx.caller], amount),
                    ),
                    ..with_position(s, ctx.caller, step.position)
                },
                transfers: step.transfers,
            },
        ),
        Err(e) => Err(e),
    }
}

/// What a claim of rewards by the caller does.
pub open spec fn claim_outcome(s: LedgerState, ctx: CallContext) -> Result<
    Outcome,
    StakingError,
> {
    match claim_step(position_of(s, ctx.caller), ctx) {
        Ok(step) => Ok(
            Outcome { state: with_position(s, ctx.caller, step.position), transfers: step.transfers },
        ),
        Err(e) => Err(e),
    }
}

/// A call that changes the ledger.
pub ghost enum Call {
    Stake { ctx: CallContext, payment: nat },
    Unstake { ctx: CallContext, amount: Option<nat> },
    ClaimRewards { ctx: CallContext },
    SetApy { apy: u64 },
}

/// What `call` does in state `s`.
pub open spec fn call_outcome(s: LedgerState, call: Call) -> Result<Outcome, StakingError> {
    match call {
        Call::Stake { ctx, payment } => stake_outcome(s, ctx, payment),
        Call::Unstake { ctx, amount } => unstake_outcome(s, ctx, amount),
        Call::ClaimRewards { ctx } => claim_outcome(s, ctx),
        Call::SetApy { apy } => Ok(
            Outcome { state: LedgerState { apy, ..s }, transfers: Seq::empty() },
        ),
    }
}

/// The state after `call`: a refused call changes nothing.
pub open spec fn state_after(s: LedgerState, call: Call) -> LedgerState {
    match call_outcome(s, call) {
        Ok(outcome) => outcome.state,
        Err(_) => s,
    }
}

/// The state of a new ledger after `calls`, made in this order.
pub open spec fn state_after_all(calls: Seq<Call>) -> LedgerState
    decreases calls.len(),
{
    if calls.len() == 0 {
        initial_state()
    } else {
        state_after(state_after_all(calls.drop_last()), calls.last())
    }
}

/// The sum over all positions is the amount of any one of them plus the sum
/// over the others.
pub proof fn lemma_total_staked_split(positions: Map<Address, PositionView>, addr: Address)
    requires
        positions.dom().finite(),
        positions.contains_key(addr),
    ensures
        total_staked(positions) == positions[addr].stake_amount + total_staked(
            positions.remove(addr),
        ),
    decreases positions.dom().len(),
{
    let chosen = positions.dom().choose();
    if chosen != addr {
        lemma_total_staked_split(positions.remove(chosen), addr);
        lemma_total_staked_split(positions.remove(addr), chosen);
        assert(positions.remove(chosen).remove(addr) =~= positions.remove(addr).remove(chosen));
    }
}

/// How the sum changes when one address gets a position or a new one.
pub proof fn lemma_total_staked_insert(
    positions: Map<Address, PositionView>,
    addr: Address,
    position: PositionView,
)
    requires
        positions.dom().finite(),
    ensures
        positions.contains_key(addr) ==> total_staked(positions.insert(addr, position))
            + positions[addr].stake_amount == total_staked(positions) + position.stake_amount,
        !positions.contains_key(addr) ==> total_staked(positions.insert(addr, position))
            == total_staked(positions) + position.stake_amount,
{
    let updated = positions.insert(addr, position);
    lemma_total_staked_split(updated, addr);
    assert(updated.remove(addr) =~= positions.remove(addr));
    if positions.contains_key(addr) {
        lemma_total_staked_split(positions, addr);
    } else {
        assert(positions.remove(addr) =~= positions);
    }
}

/// A new ledger is consistent.
pub proof fn lemma_initial_state_consistent()
    ensures
        consistent(initial_state()),
{
    assert(initial_state().staked_addresses =~= initial_state().positions.dom());
}

/// A stake keeps the ledger consistent.
pub proof fn lemma_stake_keeps_consistent(s: LedgerState, ctx: CallContext, payment: nat)
    requires
        consistent(s),
    ensures
        consistent(state_after(s, Call::Stake { ctx, payment })),
{
    if payment > 0 {
        let after = stake_outcome(s, ctx, payment)->Ok_0.state;
        lemma_total_staked_insert(s.positions, ctx.caller, after.positions[ctx.caller]);
        assert(after.staked_addresses =~= after.positions.dom());
    }
}

/// An unstake keeps the ledger consistent.
pub proof fn lemma_unstake_keeps_consistent(s: LedgerState, ctx: CallContext, amount: Option<nat>)
    requires
        consistent(s),
    ensures
        consistent(state_after(s, Call::Unstake { ctx, amount })),
{
    if unstake_outcome(s, ctx, amount) is Ok {
        let after = unstake_outcome(s, ctx, amount)->Ok_0.state;
        lemma_total_staked_split(s.positions, ctx.caller);
        if after.positions.contains_key(ctx.caller) {
            lemma_total_staked_insert(s.positions, ctx.caller, after.positions[ctx.caller]);
        }
        assert(after.staked_addresses =~= after.positions.dom());
    }
}

/// A claim of rewards keeps the ledger consistent.
pub proof fn lemma_claim_keeps_consistent(s: LedgerState, ctx: CallContext)
    requires
        consistent(s),
    ensures
        consistent(state_after(s, Call::ClaimRewards { ctx })),
{
    if claim_outcome(s, ctx) is Ok {
        let after = claim_outcome(s, ctx)->Ok_0.state;
        lemma_total_staked_insert(s.positions, ctx.caller, after.positions[ctx.caller]);
        assert(after.staked_addresses =~= after.positions.dom());
    }
}

/// Every state that calls can reach from a new ledger is consistent: the
/// aggregate is the sum of the positions, and the registry holds exactly the
/// addresses that have a position.
pub proof fn lemma_reachable_states_consistent(calls: Seq<Call>)
    ensures
        consistent(state_after_all(calls)),
        state_after_all(calls).total.stake_amount == total_staked(
            state_after_all(calls).positions,
        ),
        state_after_all(calls).staked_addresses == state_after_all(calls).positions.dom(),
    decreases calls.len(),
{
    if calls.len() == 0 {
        lemma_initial_state_consistent();
    } else {
        let before = state_after_all(calls.drop_last());
        lemma_reachable_states_consistent(calls.drop_last());
        match calls.last() {
            Call::Stake { ctx, payment } => lemma_stake_keeps_consistent(before, ctx, payment),
            Call::Unstake { ctx, amount } => lemma_unstake_keeps_consistent(before, ctx, amount),
            Call::ClaimRewards { ctx } => lemma_claim_keeps_consistent(before, ctx),
            Call::SetApy { apy } => {},
        }
    }
}

/// A claim of rewards changes no staked amount: not that of the caller, not
/// that of any other address, and not the aggregate.
pub proof fn lemma_claim_keeps_stakes(s: LedgerState, ctx: CallContext, addr: Address)
    requires
        s.positions.contains_key(addr),
    ensures
        state_after(s, Call::ClaimRewards { ctx }).positions.contains_key(addr),
        state_after(s, Call::ClaimRewards { ctx }).positions[addr].stake_amount
            == s.positions[addr].stake_amount,
        state_after(s, Call::ClaimRewards { ctx }).total == s.total,
{
}

/// An unstake of the whole stake removes the position and the registry
/// entry of the caller, and a claim or an unstake that the same address
/// makes next is refused, because it has not staked.
pub proof fn lemma_full_unstake_removes(
    s: LedgerState,
    ctx: CallContext,
    amount: Option<nat>,
    next: CallContext,
    next_amount: Option<nat>,
)
    requires
        consistent(s),
        s.staked_addresses.contains(ctx.caller),
        amount is None || amount == Some(s.positions[ctx.caller].stake_amount),
        next.caller == ctx.caller,
    ensures
        unstake_outcome(s, ctx, amount) is Ok,
        !unstake_outcome(s, ctx, amount)->Ok_0.state.positions.contains_key(ctx.caller),
        !unstake_outcome(s, ctx, amount)->Ok_0.state.staked_addresses.contains(ctx.caller),
        claim_outcome(unstake_outcome(s, ctx, amount)->Ok_0.state, next) == Err::<
            Outcome,
            StakingError,
        >(StakingError::NotStaked),
        unstake_outcome(unstake_outcome(s, ctx, amount)->Ok_0.state, next, next_amount) == Err::<
            Outcome,
            StakingError,
        >(StakingError::NotStaked),
{
    assert(s.positions.contains_key(ctx.caller));
}

} // verus!
