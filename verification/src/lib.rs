//! A minimal concentrated-liquidity market maker: tick prices in Q64
//! fixed point, a pool with a fixed tick table and a fixed number of
//! position slots, and the instruction logic that updates it.

pub mod error;
pub mod key;
pub mod math;
pub mod processor;
pub mod state;
