//! `suiup status`: check for updates of installed binaries.

use vstd::prelude::*;

verus! {

/// Check for available updates for installed binaries.
/// Use `suiup list` to see all available binaries to install.
#[derive(Debug)]
pub struct Command;

} // verus!
