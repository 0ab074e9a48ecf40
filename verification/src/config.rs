//! The server's settings.
use vstd::prelude::*;

verus! {

/// The settings the server is started with.
#[derive(Clone, Debug)]
pub struct Config {
    /// IP address to bind to.
    pub host: String,
    /// Port to listen on.
    pub port: u16,
    /// Authentication password; empty disables authentication.
    pub password: String,
    /// Maximum number of keys before LRU eviction kicks in.
    pub max_keys: usize,
    /// Path to the persistence snapshot file.
    pub db_file: String,
    /// Interval in seconds between background snapshots.
    pub save_interval: u64,
}

} // verus!
