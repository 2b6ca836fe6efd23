//! The process-wide configuration: the listening port and the optional
//! default destination, built once at startup and read by every worker.

use vstd::prelude::*;

verus! {

/// What the surrounding process configures: where to listen, and where to
/// forward when a request names no destination of its own.
pub struct Config {
    pub listen_port: u16,
    pub default_destination: Option<String>,
}

impl Config {
    pub fn new(listen_port: u16, default_destination: Option<String>) -> (r: Config)
        ensures
            r.listen_port == listen_port,
            r.default_destination == default_destination,
    {
        Config { listen_port, default_destination }
    }
}

} // verus!
