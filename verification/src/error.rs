//! The ways an operation of the engine can fail.

use vstd::prelude::*;

verus! {

/// Why an operation was refused or failed.
///
/// The first five are faults of the caller's input, found before any key
/// is touched. `AuthenticationFailure` is the expected outcome for forged or
/// damaged input. `MisuseAfterDestroy` reports a read through a handle whose
/// storage was already released.
#[derive(Clone, Copy, Debug, PartialEq, Eq, Structural)]
pub enum AeadError {
    UnsupportedAlgorithm,
    InvalidKeyLength,
    InvalidNonceLength,
    AssociatedDataTooLong,
    PlaintextTooLong,
    AuthenticationFailure,
    MisuseAfterDestroy,
}

} // verus!
