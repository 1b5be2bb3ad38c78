//! Session lifecycle and access control for a streaming-connection gateway.
//!
//! The crate holds the allow-list with its rotating secret, the admission
//! decision, and the per-connection state machine that watches liveness and
//! carries out the allow-list commands sent over a connection.

pub mod address;
pub mod command;
pub mod error;
pub mod filter;
pub mod gateway;
pub mod groups;
pub mod numeral;
pub mod quad;
pub mod server;
pub mod shared;
pub mod text;
