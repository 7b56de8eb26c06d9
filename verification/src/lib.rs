//! Order book of resting limit orders, merged with outside liquidity.
pub mod config;
pub mod contract;
pub mod engine;
pub mod error;
pub mod events;
pub mod funds;
pub mod market_maker;
pub mod market_makers;
pub mod math;
pub mod merge;
pub mod order;
pub mod order_manager;
pub mod pool;
pub mod price;
pub mod store;
pub mod swap_iter;
pub mod tick;

pub use crate::error::ContractError;
