//! The command line: serve, purge cache entries, or show cache statistics.

use vstd::prelude::*;

verus! {

pub struct Cli {
    pub command: Command,
}

pub enum Command {
    /// Start the server with the configuration file at `config`.
    Serve { config: String },
    /// Purge cache entries: one path, a prefix, or all.
    Purge { path: Option<String>, prefix: Option<String>, all: bool, socket: String },
    /// Show cache statistics.
    Stats { socket: String },
}

} // verus!
