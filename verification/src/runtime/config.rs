//! How the probe is set up.

use vstd::prelude::*;

verus! {

/// Every how many milliseconds captured events and commands are taken in.
pub const CAPTURE_POLL_MILLIS: u64 = 10;

/// Every how many seconds participants that have fallen silent are looked for.
pub const DISCOVERY_SWEEP_SECONDS: u64 = 1;

/// How many samples are remembered to know them again.
pub const RECENT_SAMPLE_CACHE_CAPACITY: usize = 65_536;

/// The settings of the probe. There are none yet.
#[derive(Clone, Copy, Debug)]
pub struct RuntimeConfig;

impl Default for RuntimeConfig {
    fn default() -> (r: RuntimeConfig)
        ensures
            r == RuntimeConfig,
    {
        RuntimeConfig
    }
}

} // verus!
