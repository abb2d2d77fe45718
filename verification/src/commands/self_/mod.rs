//! `suiup self`: update or uninstall `suiup` itself.

pub mod complete_update;

use vstd::prelude::*;

verus! {

/// The `self` subcommands.
#[derive(Debug)]
pub enum Commands {
    /// Update `suiup` to the latest release.
    Update,
    /// Remove `suiup`.
    Uninstall,
    /// Finish an update by replacing the running executable (internal).
    CompleteUpdate(complete_update::Command),
}

/// Commands for suiup itself.
#[derive(Debug)]
pub struct Command {
    pub command: Commands,
}

} // verus!
