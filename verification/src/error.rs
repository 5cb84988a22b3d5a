//! The conditions under which an operation on a register is refused.

use vstd::prelude::*;

verus! {

/// Why an operation was refused. Every condition is a misuse detected at
/// the moment of the call; the register involved is left as it was.
#[derive(Debug, Clone, Copy, PartialEq, Eq, Structural)]
pub enum QuantumError {
    /// A matrix or gate was applied to a register of another dimension,
    /// the rows handed over do not form a square, or the number of
    /// amplitudes handed over is not a power of two.
    DimensionMismatch,
    /// An amplitude or matrix entry would have a square above 1, so the
    /// probability it stands for would lie outside [0, 1].
    InvalidProbability,
}

} // verus!
