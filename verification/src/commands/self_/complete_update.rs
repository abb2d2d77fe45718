//! `suiup self complete-update`: the arguments of the step that replaces the
//! executable after an update.

use vstd::prelude::*;

verus! {

/// The arguments of `self complete-update`.
#[derive(Debug)]
pub struct Command {
    pub target: String,
    pub source: String,
    pub parent_pid: Option<u32>,
    pub helper_path: Option<String>,
}

} // verus!
