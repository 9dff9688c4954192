//! Configuration of the ingestor.
//!
//! Loading it from the environment stands outside the library.

use vstd::prelude::*;

use std::time::Duration;

use crate::events::Address;
use crate::text::{decimal, decimal_string};

verus! {

/// The whole configuration.
pub struct Config {
    pub app: AppConfig,
    pub chain: ChainConfig,
    pub nats: NatsConfig,
}

/// Chain/RPC configuration.
pub struct ChainConfig {
    /// Chain ID (default: 421614 for Arbitrum Sepolia)
    pub chain_id: u32,
    /// RPC endpoint URL
    pub rpc_endpoint: String,
    /// Contract address to monitor
    pub contract_address: Address,
    /// Number of blocks to fetch per batch (default: 50)
    pub batch_size: u64,
    /// Delay between polls (default: 500ms)
    pub poll_delay: Duration,
    /// Delay between retries (default: 250ms)
    pub retry_delay: Duration,
}

/// Application configuration.
pub struct AppConfig {
    /// Initial block to start from (0 = require state file)
    pub initial_block: u64,
    /// State file path (default: nox_ingestor_state_421614.json)
    pub state_file: String,
    /// Flush interval (default: 5s)
    pub flush_interval: Duration,
}

/// NATS JetStream configuration.
pub struct NatsConfig {
    /// NATS server URL
    pub url: String,
    /// JetStream stream name
    pub stream_name: String,
    /// Subject prefix for events
    pub subject: String,
    /// Stream retention (default: 1d)
    pub retention: Duration,
    /// Duplicate detection window (default: 10m)
    pub duplicate_window: Duration,
}

/// The state file path: the configured one, or `./nox_ingestor_state_{chain_id}.json`
/// when none is configured.
pub open spec fn state_file_path_of(state_file: Seq<char>, chain_id: u32) -> Seq<char> {
    if state_file.len() == 0 {
        "./nox_ingestor_state_"@ + decimal(chain_id as nat) + ".json"@
    } else {
        state_file
    }
}

impl Config {
    /// The state file path, using the default when none is configured.
    pub fn state_file_path(&self) -> (p: String)
        ensures
            p@ == state_file_path_of(self.app.state_file@, self.chain.chain_id),
    {
        if self.app.state_file.as_str().is_empty() {
            let mut p = "./nox_ingestor_state_".to_owned();
            let id = decimal_string(self.chain.chain_id as u64);
            p.append(id.as_str());
            p.append(".json");
            p
        } else {
            self.app.state_file.clone()
        }
    }
}

} // verus!
