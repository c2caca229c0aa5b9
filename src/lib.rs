//! A deterministic reducer that folds an ordered log of DAO contract events
//! (staking, delegation, reward epochs, proposals) into a queryable ledger.
//!
//! - `amount`, `address`, `amount_map`: 256-bit amounts, identifiers, and
//!   maps from accounts to amounts.
//! - `wallet`, `ledger`: account records, the ledger's invariant, and what
//!   each staking and delegation operation does to it.
//! - `rewards`, `epoch`: pro-rata distribution of minted rewards.
//! - `voting`: proposals and their tallies.
//! - `events`, `reducer`, `state`: the event model, the aggregate state, and
//!   the single entry point that folds one event into it.
//! - `queries`, `labels`, `treasury`: read-side totals, labels and treasuries.
//! - `laws`: what holds across operations and event sequences.

pub mod address;
pub mod amount;
pub mod amount_map;
pub mod wallet;
pub mod ledger;
pub mod events;
pub mod epoch;
pub mod voting;
pub mod treasury;
pub mod state;
pub mod rewards;
pub mod reducer;
pub mod laws;
pub mod labels;
pub mod queries;
