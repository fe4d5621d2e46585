//! Five-card-draw video poker: hand evaluation, payout table, and the
//! in-memory economy (wallets, rounds, shared pools) with its round lifecycle.

pub mod models;
pub mod game;
pub mod store;
pub mod play;
