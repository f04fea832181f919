//! Startup configuration, consumed read-only by the rest of the crate.
//!
//! The values are plain data; loading them from configuration files and
//! from the environment is the embedding program's business.

use vstd::prelude::*;

verus! {

/// Where the ledger's durable storage lives.
#[derive(Debug)]
pub struct Database {
    pub filename: String,
}

/// Credentials and routing for the chat front-end.
#[derive(Debug)]
pub struct Discord {
    pub token: String,
    pub proxy: Option<String>,
}

/// Parameters of the weekly feeding sweep.
#[derive(Debug)]
pub struct PotatoFeeder {
    pub channel_id: u64,
    /// Sweep tick interval, in seconds.
    pub interval_seconds: u64,
    /// Base amount fed to each active player per cycle.
    pub amount: i64,
    pub zero_points_emoji: String,
}

/// The whole startup configuration.
#[derive(Debug)]
pub struct Settings {
    pub database: Database,
    pub discord: Discord,
    pub potato_feeder: PotatoFeeder,
}

} // verus!
