//! A cross-chain intent orderbook with verified settlement logic.
//!
//! Users hold internal ledger balances, publish intents to trade one asset
//! for another, and have those intents matched in atomic multi-leg batches.
//! Settlement of each matched leg is driven by two asynchronous external
//! collaborators (an MPC signer and a light client); their callbacks are
//! handlers on the [`orderbook::Orderbook`] state machine.

pub mod text;
pub mod types;
pub mod table;
pub mod ledger;
pub mod orderbook;
pub mod batch;
pub mod light_client;
pub mod prover;
pub mod matcher;
pub mod laws;
