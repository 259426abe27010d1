//! The records of the ledger, and what goes in and out of a call.

use crate::address::Address;
use crate::biguint::BigUint;
use vstd::prelude::*;

verus! {

/// Blocks in a year, at one block every six seconds.
pub const BLOCKS_IN_YEAR: u64 = 60 * 60 * 24 * 365 / 6;

/// The scale of a percentage: 10 000 stands for 100 %.
pub const MAX_PERCENTAGE: u64 = 10_000;

/// The reward that one staked unit earns in one block.
pub const REWARD_PER_BLOCK: u64 = 300_000_000_000_000;

/// The aggregate over all positions.
#[derive(Debug)]
pub struct StakingTotal {
    /// The sum of all staked amounts.
    pub stake_amount: BigUint,
    /// The epoch of the latest stake.
    pub last_action_block: u64,
    /// The timestamp of the latest stake.
    pub last_action_block_timestamp: u64,
}

/// A `StakingTotal` as plain numbers.
pub ghost struct TotalView {
    pub stake_amount: nat,
    pub last_action_block: u64,
    pub last_action_block_timestamp: u64,
}

impl View for StakingTotal {
    type V = TotalView;

    open spec fn view(&self) -> TotalView {
        TotalView {
            stake_amount: self.stake_amount@,
            last_action_block: self.last_action_block,
            last_action_block_timestamp: self.last_action_block_timestamp,
        }
    }
}

impl Clone for StakingTotal {
    fn clone(&self) -> (r: StakingTotal)
        ensures
            r@ == self@,
    {
        StakingTotal {
            stake_amount: self.stake_amount.clone(),
            last_action_block: self.last_action_block,
            last_action_block_timestamp: self.last_action_block_timestamp,
        }
    }
}

impl PartialEq for StakingTotal {
    fn eq(&self, other: &StakingTotal) -> (r: bool) {
        self.stake_amount == other.stake_amount && self.last_action_block
            == other.last_action_block && self.last_action_block_timestamp
            == other.last_action_block_timestamp
    }
}

impl vstd::std_specs::cmp::PartialEqSpecImpl for StakingTotal {
    open spec fn obeys_eq_spec() -> bool {
        true
    }

    open spec fn eq_spec(&self, other: &StakingTotal) -> bool {
        self@ == other@
    }
}

/// What one address has staked, and the block up to which its rewards are
/// settled.
#[derive(Debug)]
pub struct StakingPosition {
    /// The staked amount.
    pub stake_amount: BigUint,
    /// The block height at which rewards were last settled.
    pub last_action_block: u64,
    /// The timestamp at which the position was opened.
    pub last_action_block_timestamp: u64,
}

/// A `StakingPosition` as plain numbers.
pub ghost struct PositionView {
    pub stake_amount: nat,
    pub last_action_block: u64,
    pub last_action_block_timestamp: u64,
}

impl View for StakingPosition {
    type V = PositionView;

    open spec fn view(&self) -> PositionView {
        PositionView {
            stake_amount: self.stake_amount@,
            last_action_block: self.last_action_block,
            last_action_block_timestamp: self.last_action_block_timestamp,
        }
    }
}

impl Clone for StakingPosition {
    fn clone(&self) -> (r: StakingPosition)
        ensures
            r@ == self@,
    {
        StakingPosition {
            stake_amount: self.stake_amount.clone(),
            last_action_block: self.last_action_block,
            last_action_block_timestamp: self.last_action_block_timestamp,
        }
    }
}

impl PartialEq for StakingPosition {
    fn eq(&self, other: &StakingPosition) -> (r: bool) {
        self.stake_amount == other.stake_amount && self.last_action_block
            == other.last_action_block && self.last_action_block_timestamp
            == other.last_action_block_timestamp
    }
}

impl vstd::std_specs::cmp::PartialEqSpecImpl for StakingPosition {
    open spec fn obeys_eq_spec() -> bool {
        true
    }

    open spec fn eq_spec(&self, other: &StakingPosition) -> bool {
        self@ == other@
    }
}

/// What the host says of the call being served.
#[derive(Clone, Copy, Debug)]
pub struct CallContext {
    /// The account that makes the call.
    pub caller: Address,
    /// The height of the current block.
    pub block_nonce: u64,
    /// The epoch of the current block.
    pub block_epoch: u64,
    /// The timestamp of the current block.
    pub block_timestamp: u64,
}

/// An amount that the host has to send to an account.
#[derive(Debug)]
pub struct Transfer {
    /// The receiver.
    pub to: Address,
    /// The amount to send.
    pub amount: BigUint,
}

/// A `Transfer` as plain values.
pub ghost struct TransferView {
    pub to: Address,
    pub amount: nat,
}

impl View for Transfer {
    type V = TransferView;

    open spec fn view(&self) -> TransferView {
        TransferView { to: self.to, amount: self.amount@ }
    }
}

impl PartialEq for Transfer {
    fn eq(&self, other: &Transfer) -> (r: bool) {
        self.to == other.to && self.amount == other.amount
    }
}

impl vstd::std_specs::cmp::PartialEqSpecImpl for Transfer {
    open spec fn obeys_eq_spec() -> bool {
        true
    }

    open spec fn eq_spec(&self, other: &Transfer) -> bool {
        self@ == other@
    }
}

/// A position that may be absent, as plain numbers.
pub open spec fn position_view(position: Option<StakingPosition>) -> Option<PositionView> {
    match position {
        Some(p) => Some(p@),
        None => None,
    }
}

/// An amount that may be absent, as a number.
pub open spec fn amount_view(amount: Option<BigUint>) -> Option<nat> {
    match amount {
        Some(a) => Some(a@),
        None => None,
    }
}

/// The transfers of a list, each as plain values.
pub open spec fn transfers_view(transfers: Seq<Transfer>) -> Seq<TransferView> {
    transfers.map_values(|t: Transfer| t@)
}

/// Why a call was refused.
#[derive(Clone, Copy, Debug, PartialEq, Eq, Structural)]
pub enum StakingError {
    /// A stake came with no payment.
    InvalidPayment,
    /// The caller has no position.
    NotStaked,
    /// The amount to unstake is zero or more than the caller has staked.
    InvalidUnstakeAmount,
}

impl StakingError {
    /// The message that goes with the error.
    pub fn message(&self) -> (r: &'static str)
        ensures
            r@ == match *self {
                StakingError::InvalidPayment => "Must pay more than 0"@,
                StakingError::NotStaked => "Must stake first"@,
                StakingError::InvalidUnstakeAmount => "Invalid unstake amount"@,
            },
    {
        match self {
            StakingError::InvalidPayment => "Must pay more than 0",
            StakingError::NotStaked => "Must stake first",
            StakingError::InvalidUnstakeAmount => "Invalid unstake amount",
        }
    }
}

} // verus!
