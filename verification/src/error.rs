//! Conditions under which an operation is dropped instead of carried out.

use vstd::prelude::*;

verus! {

/// Why an operation was dropped.
#[derive(Clone, Copy, Debug, PartialEq, Eq, Structural)]
pub enum ConsensusError {
    /// A proposal or a finalization check names a block that the local store
    /// does not hold.
    ParentUnknown,
    /// A message is addressed to a node outside the simulated set.
    UnroutableDestination,
}

} // verus!
