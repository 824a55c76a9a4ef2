//! The failures of circuit construction and of the proof lifecycle.

use vstd::prelude::*;

verus! {

/// Why an operation on a circuit was refused. None of these is retried: each
/// ends the construction it occurred in.
#[derive(Clone, Copy, Debug, PartialEq, Eq, Structural)]
pub enum CsError {
    /// The arena holds as many places, or the trace as many rows, as it was
    /// built for.
    CapacityExceeded,
    /// One gate kind was configured with two different placement strategies.
    DuplicateGateConfiguration,
    /// The column and degree budgets cannot carry the configured gates.
    InvalidGeometry,
    /// A value was read that no witness and no gate has supplied.
    UnresolvedValue,
    /// A gate's relation does not hold of the values bound to its places.
    WitnessMismatch,
    /// The system has been frozen and admits no further change.
    SystemFrozen,
    /// A gate of a kind that the circuit configuration does not enable.
    GateNotConfigured,
    /// The place was not issued by this system's arena.
    UnknownPlace,
    /// A verification key was made under another geometry or gate set.
    ConfigurationMismatch,
}

} // verus!
