//! A staking ledger: per-address positions, a running aggregate, and
//! flat-rate rewards that accrue with every block.

pub mod address;
pub mod biguint;
pub mod contract;
pub mod model;
pub mod positions;
pub mod registry;
pub mod reward;
pub mod step;
pub mod types;
