//! `suiup default get`: show the default binaries.

use vstd::prelude::*;

verus! {

/// Get the default Sui CLI version.
#[derive(Debug)]
pub struct Command;

} // verus!
