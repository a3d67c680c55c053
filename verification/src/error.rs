//! What a request for a proof can fail with.

use vstd::prelude::*;

verus! {

/// Why no proof could be computed from a state.
#[derive(Debug, Clone, Copy, PartialEq, Eq)]
pub enum BeaconStateError {
    /// The generalized index names no node of the state's tree.
    IndexNotSupported(usize),
    /// The state's fork has no field at the place asked for.
    IncorrectStateVariant,
}

/// Why a request for a proof failed.
#[derive(Debug, Clone, Copy, PartialEq, Eq)]
pub enum Error {
    /// The node answered with a status other than success.
    HttpStatus(u16),
    /// The bytes are no state of the fork that the response names.
    SszError,
    /// The response names no fork.
    MissingConsensusVersion,
    /// The response names a fork that is not known.
    InvalidConsensusVersion,
    /// The state was read, and no proof could be computed from it.
    BeaconStateError(BeaconStateError),
}

} // verus!
