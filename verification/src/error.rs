use vstd::prelude::*;

verus! {

/// The ways in which an operation of this library is refused.
#[derive(Debug, Clone, Copy, PartialEq, Eq, Structural)]
pub enum ElevatorError {
    /// A floor outside `[0, num_floors)` was named.
    InvalidFloor,
    /// A cabin already holds as many passengers as it may carry.
    CapacityExceeded,
    /// A passenger was not served within the configured bound.
    RequestTimeout,
    /// A request that is not pending in the ledger was to be assigned, or the
    /// clock that orders the requests has run out.
    LedgerConsistency,
    /// The operation is not valid in the state the cabin is in.
    InvalidState,
    /// The parameters of a cabin, a controller or a simulation are malformed.
    InvalidConfig,
    /// No cabin is registered under the given index.
    UnknownCabin,
}

} // verus!
