//! `suiup remove`: remove a binary.

use vstd::prelude::*;

verus! {

/// Remove one or more binaries.
#[derive(Debug)]
pub struct Command {
    pub binary: String,
}

} // verus!
