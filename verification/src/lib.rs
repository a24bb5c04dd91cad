//! The life bonding contract: bonds on data NFTs, penalties,
//! compensations and refunds, as a verified state machine.
//!
//! Token amounts are `amount::Amount`s: unbounded, with exact arithmetic, so
//! no endpoint or query is ever refused for the size of an amount.
pub mod accounts;
pub mod admin;
pub mod amount;
pub mod arith;
pub mod bonding;
pub mod collections;
pub mod config;
pub mod errors;
pub mod laws;
pub mod mapper;
pub mod query_laws;
pub mod storage;
pub mod types;
pub mod views;
