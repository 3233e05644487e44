//! The command line: an optional subcommand. Argument parsing happens outside.

use vstd::prelude::*;

verus! {

/// Parsed command line.
#[derive(Debug, Clone, Copy, PartialEq, Eq, Structural)]
pub struct Cli {
    pub command: Option<Commands>,
}

/// Subcommands; without one the interactive session starts.
#[derive(Debug, Clone, Copy, PartialEq, Eq, Structural)]
pub enum Commands {
    /// Configure settings.
    Config { action: ConfigAction },
}

/// Configuration subcommands.
#[derive(Debug, Clone, Copy, PartialEq, Eq, Structural)]
pub enum ConfigAction {
    /// Write a default configuration (overwrites an existing one).
    Init,
    /// Show the current configuration.
    Show,
    /// Check the organization URL and token against the service.
    Verify,
}

} // verus!
