//! The account state of the AMM.
pub mod pool;
