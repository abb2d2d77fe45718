//! `suiup default`: show or set the default version of a binary.

pub mod get;
pub mod set;

use vstd::prelude::*;

verus! {

/// The `default` subcommands.
#[derive(Debug)]
pub enum DefaultCommands {
    /// Show the default binaries (`get`).
    Show(get::Command),
    /// Set the default version of a binary (`set`).
    Change(set::Command),
}

/// `suiup default`.
#[derive(Debug)]
pub struct Command {
    pub command: DefaultCommands,
}

} // verus!
