//! Error kinds surfaced by the library.

use vstd::prelude::*;

verus! {

/// The failures the library reports to callers.
///
/// Matrix-inversion failures are normally absorbed by rejection sampling;
/// `MatrixNotInvertible` is surfaced only when the retry budget is exhausted
/// or an invariant that guarantees invertibility has been broken. The
/// remaining kinds concern deserialized instances and misused instances.
#[derive(Clone, Copy, Debug, PartialEq, Eq, Structural)]
pub enum WbError {
    /// A matrix expected to be invertible was not.
    MatrixNotInvertible,
    /// A deserialized blob carries an unsupported format version.
    InstanceVersionMismatch,
    /// A deserialized blob carries an unsupported scheme tag.
    SchemeMismatch,
    /// A deserialized blob has the wrong block size, round count or table
    /// dimensions.
    InstanceShapeMismatch,
    /// The requested operation is impossible for this instance.
    EncodingPrecondition,
    /// An input that must be a whole number of 32-byte blocks is not.
    InputLengthMismatch,
}

impl WbError {
    /// A short description of the error.
    pub fn message(&self) -> (r: &'static str) {
        match self {
            WbError::MatrixNotInvertible => "matrix is not invertible",
            WbError::InstanceVersionMismatch => "unsupported instance version",
            WbError::SchemeMismatch => "unsupported scheme tag",
            WbError::InstanceShapeMismatch => "instance shape mismatch",
            WbError::EncodingPrecondition => "operation impossible for this instance",
            WbError::InputLengthMismatch => "input is not a multiple of 32 bytes",
        }
    }
}

} // verus!
