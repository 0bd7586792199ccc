//! Configuration that the broker core consumes.

use vstd::prelude::*;

verus! {

/// Settings for one broker instance: the TCP port the front end listens on
/// and the idle timeout for a connection, in milliseconds. The core never
/// reads the clock itself; the front end turns the timeout into a timer.
pub struct BrokerConfig {
    pub port: u16,
    pub connection_timeout_ms: u64,
}

impl BrokerConfig {
    pub fn new(port: u16, connection_timeout_ms: u64) -> (c: BrokerConfig)
        ensures
            c.port == port,
            c.connection_timeout_ms == connection_timeout_ms,
    {
        BrokerConfig { port, connection_timeout_ms }
    }
}

} // verus!
