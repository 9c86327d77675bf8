//! An agent-based market-microstructure simulator core: three matching
//! engines (continuous double auction, frequent batch auction, and a
//! flow market cleared by binary search) fed from a gas-prioritized
//! mempool, with a clearing house that applies trade results and gas
//! fees to player balances and inventories.
//!
//! Prices, quantities and gas are fixed-point integers: one unit
//! stands for 10^-6 of a currency unit or share, so the epsilon used
//! by the engines' tolerant comparisons is exactly one unit.

pub mod auction;
pub mod book;
pub mod clearing_house;
pub mod exchange;
pub mod history;
pub mod investor;
pub mod maker;
pub mod miner;
pub mod players;
pub mod processor;
pub mod simulation;
pub mod mempool;
pub mod order;
pub mod utility;

pub use order::{ExchangeType, Order, OrderType, TradeType};
