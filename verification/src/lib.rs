//! A verified core for an automated-market-maker state-tracking and
//! arbitrage-path engine.
//!
//! The library keeps a mirror of liquidity-pool state, admits pools through a
//! filter pipeline, applies incremental per-block updates, enumerates bounded
//! trade cycles through a base asset, and simulates them with per-variant
//! pricing formulas.  Everything here is pure computation on plain values;
//! transport, persistence and configuration loading live outside the library
//! and hand values in.

pub mod addr;
pub mod codec;
pub mod config;
pub mod events;
pub mod filter;
pub mod math;
pub mod pathfinder;
pub mod pricing;
pub mod registry;
pub mod simulate;
pub mod snapshot;
pub mod store;
pub mod sync;
pub mod types;
