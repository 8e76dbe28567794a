//! Clearing core of a batch-auction trade solver.
//!
//! A batch of orders is normalized, directly-opposing orders are netted
//! against each other, a uniform clearing price is computed for the matched
//! volume, residual volume may be routed to external liquidity, and the
//! result is assembled into a settlement whose conservation invariants are
//! checked before it is returned.

pub mod adapters;
pub mod bridge;
pub mod matching;
pub mod models;
pub mod numeric;
pub mod performance;
pub mod pricing;
pub mod routing;
pub mod settlement;
pub mod solver;
pub mod strategy;
pub mod utils;
