//! The command-line surface, as plain data.
//!
//! The front-end that reads the actual command line lives outside the
//! library; it hands over one of these values, and the library's callers
//! dispatch on it.

use vstd::prelude::*;
use crate::firewall;

verus! {

/// Global operating mode.
#[derive(Debug, Copy, Clone, PartialEq, Eq, Structural)]
pub enum Mode {
    /// Only heuristic filtering is active.
    Intelligent,
    /// Only static block and allow lists are active.
    Manual,
    /// Both heuristic detection and static rules are active.
    Hybrid,
}

/// Which subsystem a toggle addresses.
#[derive(Debug, Copy, Clone, PartialEq, Eq, Structural)]
pub enum ToggleFeature {
    Intelligent,
    Manual,
}

/// Scope of a flush, as the command line names it.
#[derive(Debug, Copy, Clone, PartialEq, Eq, Structural)]
pub enum FlushTarget {
    /// Reset the whole ruleset.
    All,
    /// Drop only the dynamic bans, keeping the whitelist.
    Banned,
}

/// One command.
#[derive(Debug, Clone)]
pub enum Commands {
    /// Add a static rule dropping all packets from a source.
    Block { target: String },
    /// Add a static rule exempting a source from every check.
    Allow { target: String },
    /// Toggle a subsystem.
    Toggle { feature: ToggleFeature },
    /// Report counters.
    Stats { json: bool },
    /// Clear the managed ruleset.
    Flush { target: FlushTarget },
    /// Update the program.
    Update,
    /// Report the version.
    Version,
}

/// The parsed invocation: an optional command, and the mode.
#[derive(Debug, Clone)]
pub struct Args {
    pub command: Option<Commands>,
    pub mode: Mode,
}

/// The firewall scope a command-line flush scope denotes.
pub fn to_firewall_target(t: FlushTarget) -> (r: firewall::FlushTarget)
    ensures
        t == FlushTarget::All ==> r is All,
        t == FlushTarget::Banned ==> r is Banned,
{
    match t {
        FlushTarget::All => firewall::FlushTarget::All,
        FlushTarget::Banned => firewall::FlushTarget::Banned,
    }
}

} // verus!
