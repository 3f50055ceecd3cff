use vstd::prelude::*;

verus! {

/// Why a transaction on the shared bus did not happen or did not succeed.
#[derive(Debug, PartialEq, Eq)]
pub enum BusShareError<E> {
    /// The bus transaction itself failed; the bus's own error, unchanged.
    Bus(E),
    /// An earlier holder of the bus ended abnormally while holding it: the
    /// bus's state can no longer be trusted, and no further transaction runs.
    LockPoisoned,
}

} // verus!
