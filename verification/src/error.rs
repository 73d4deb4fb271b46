//! The error categories shared by every operation of the library.

use vstd::prelude::*;

verus! {

/// The check of a presentation proof that did not hold.
#[derive(Clone, Copy, Debug, PartialEq, Eq, Structural)]
pub enum ProofCheck {
    /// The Fiat-Shamir challenge does not match the recomputed transcript.
    Challenge,
    /// The first commitment recomputed from the responses differs.
    FirstCommitment,
    /// The second commitment recomputed from the responses differs.
    SecondCommitment,
    /// The randomized credential does not pair with the issuer key witness.
    PairingBinding,
    /// The issuer key witness is not bound to the verifier's policy.
    PolicyBinding,
}

/// Why an operation did not produce a value.
#[derive(Clone, Copy, Debug, PartialEq, Eq, Structural)]
pub enum Error {
    /// A length or an index is out of range, or a list is empty.
    InvalidParameter,
    /// A secret key is zero or a public key is the identity.
    InvalidKey,
    /// A byte string does not decode to a field or group element.
    InvalidEncoding,
    /// The pairing equations of a signature do not hold.
    SignatureVerificationFailed,
    /// A presentation proof failed the named check.
    ProofVerificationFailed(ProofCheck),
    /// The random source kept returning zero where a unit was needed.
    RandomnessFailure,
}

} // verus!
