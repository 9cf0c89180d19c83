//! Verified core of a token-launch trading bot.
//!
//! Launches are picked out of a transaction stream (`listener`, `detector`), filtered
//! (`filters`, `pipeline`), bought with a wallet of the pool (`wallet`, `transaction`,
//! `executor`) and sold by a position state machine (`strategy`), all as `config` says.
//! Numbers with a fraction are binary floating-point numbers (`binary64`) whose rounding is
//! verified (`rounding`), as is their decimal form (`decimal`).
pub mod base58;
pub mod bench_api;
pub mod binary64;
pub mod config;
pub mod decimal;
pub mod detector;
pub mod executor;
pub mod filters;
pub mod listener;
pub mod pipeline;
pub mod pubkey;
pub mod rounding;
pub mod strategy;
pub mod transaction;
pub mod wallet;
