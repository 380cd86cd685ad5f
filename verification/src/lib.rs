//! A wager resolution engine for a single-zero roulette table: the bet
//! categories and their board geometry, the expansion of a drawn number into
//! every category that wins on it, the validation of stakes against the table
//! limits and the aggregation of winnings per currency.

pub mod board;
pub mod coins;
pub mod contract;
pub mod errors;
pub mod labels;
pub mod msg;
pub mod rng;
pub mod settlement;
pub mod state;
pub mod types;
