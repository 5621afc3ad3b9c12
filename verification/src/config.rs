//! Settings of the rate limiting service that are plain values.

use vstd::prelude::*;

verus! {

/// Default interval between configuration reloads, in seconds.
pub fn default_reload_interval() -> (r: u64)
    ensures
        r == 60,
{
    60
}

/// Default size of the local counter cache.
pub fn default_cache_size() -> (r: usize)
    ensures
        r == 10000,
{
    10000
}

/// Default staleness threshold of distributed reads, in milliseconds.
pub fn default_staleness_threshold() -> (r: u64)
    ensures
        r == 500,
{
    500
}

/// Rate limiting settings.
#[derive(Debug)]
pub struct RateLimitingConfig {
    /// Path to the rate limit rules file, if one is configured.
    pub config_path: Option<String>,
    /// Interval between configuration reloads, in seconds.
    pub config_reload_interval_secs: u64,
    /// Size of the local counter cache.
    pub local_cache_size: usize,
    /// Staleness threshold of distributed reads, in milliseconds.
    pub staleness_threshold_ms: u64,
}

impl Default for RateLimitingConfig {
    /// No rules file, with the default intervals and sizes.
    fn default() -> (r: Self)
        ensures
            r.config_path is None,
            r.config_reload_interval_secs == 60,
            r.local_cache_size == 10000,
            r.staleness_threshold_ms == 500,
    {
        RateLimitingConfig {
            config_path: None,
            config_reload_interval_secs: default_reload_interval(),
            local_cache_size: default_cache_size(),
            staleness_threshold_ms: default_staleness_threshold(),
        }
    }
}

} // verus!
