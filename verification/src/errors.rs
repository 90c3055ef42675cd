//! Errors of proof verification.
use vstd::prelude::*;

verus! {

/// Why a proof was rejected.
#[derive(Clone, Copy, Debug, PartialEq, Eq)]
pub enum ProofVerifyError {
    /// The proof, or the statement it is checked against, is malformed or
    /// does not verify.
    InternalError,
}

} // verus!
