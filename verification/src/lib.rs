//! A virtual-currency ledger for a chat casino: per-player balances under
//! optimistic concurrency control, an idle-decay/charity redistribution
//! policy driven by a weekly sweep, and a dense tie-aware leaderboard.

pub mod players;
pub mod errors;
pub mod settings;
pub mod ledger;
pub mod flip;
pub mod economy;
pub mod feeder;
pub mod leaderboard;
