//! Process configuration for the relay.

use vstd::prelude::*;

verus! {

/// The relay's listening port when none is configured.
pub const DEFAULT_PORT: u16 = 8000;

/// What the relay needs to start: where the durable store lives and which
/// port to serve on.  Reading the environment is the embedding process's job;
/// it hands the resolved address in.
pub struct Config {
    pub database_url: String,
    pub port: u16,
}

impl Config {
    /// A configuration for the given database address, on the default port.
    pub fn new(database_url: String) -> (c: Config)
        ensures
            c.database_url@ == database_url@,
            c.port == DEFAULT_PORT,
    {
        Config { database_url, port: DEFAULT_PORT }
    }
}

} // verus!
