//! Groth signatures on a point of the second group.
//!
//! With secret `x` and public key `g1 * x`, a signature on `M` under the
//! nonce `r` is `(R1, S2, T2) = (g1 * r, (y2 + g2 * x) * r^-1,
//! (y2 * x + M) * r^-1)`. It verifies when `e(R1, S2) = e(g1, y2) +
//! e(pk, g2)` and `e(R1, T2) = e(pk, y2) + e(g1, M)`.

use vstd::prelude::*;

use crate::algebra::{
    group_laws, is_g1, is_g2, law_g1_identity, law_g1_mul, law_g2_mul, law_g2_sum, law_inverse,
    law_pairing_right, law_pairing_scalar, lemma_g2_inverse_scaling,
};
use crate::error::Error;
use crate::group::{
    g1_is_identity, g1_mul, g1_scale, g2_add, g2_mul, g2_scale, g2_sum, gt_add, gt_sum, pair, pairing, G1, G2,
};
use crate::groth;
use crate::groth::SecretKey;
use crate::scalar::{fr_inv, modulus, Scalar};
use crate::setup::{distinct_g1, distinct_g2, g1_from_hex, g2_from_hex, G1_GENERATOR_HEX, G2_GENERATOR_HEX};

verus! {

/// The generators that the signature uses.
#[derive(Clone, Copy, Debug)]
pub struct PublicParameters {
    pub g1: G1,
    pub g2: G2,
    pub y2: G2,
}

/// A public key.
#[derive(Clone, Copy, Debug)]
pub struct PublicKey(pub G1);

/// A key pair.
#[derive(Clone, Copy, Debug)]
pub struct KeyPair {
    pub secret_key: SecretKey,
    pub public_key: PublicKey,
}

/// A signature.
#[derive(Clone, Copy, Debug)]
pub struct Signature {
    pub r1: G1,
    pub s2: G2,
    pub t2: G2,
}

/// Why no signature is made under the secret `x` with the nonce `r`, if
/// none is.
pub open spec fn sign_error(x: nat, r: nat) -> Option<Error> {
    if x == 0 {
        Some(Error::InvalidKey)
    } else if r == 0 {
        Some(Error::RandomnessFailure)
    } else {
        None
    }
}

/// Whether `sig` is the signature on `message` that the nonce `r` gives.
pub open spec fn signs(pp: PublicParameters, x: nat, message: Seq<u8>, r: nat, sig: Signature) -> bool {
    &&& sig.r1@ == g1_mul(pp.g1@, r)
    &&& sig.s2@ == g2_mul(g2_sum(pp.y2@, g2_mul(pp.g2@, x)), fr_inv(r))
    &&& sig.t2@ == g2_mul(g2_sum(g2_mul(pp.y2@, x), message), fr_inv(r))
}

/// Whether `sig` is a signature on `message` made with some nonce.
pub open spec fn signed(pp: PublicParameters, x: nat, message: Seq<u8>, sig: Signature) -> bool {
    exists|r: nat| 0 < r < modulus() && #[trigger] signs(pp, x, message, r, sig)
}

/// Whether `fresh` is `sig` randomized with `r`.
pub open spec fn rerandomizes(sig: Signature, r: nat, fresh: Signature) -> bool {
    &&& fresh.r1@ == g1_mul(sig.r1@, r)
    &&& fresh.s2@ == g2_mul(sig.s2@, fr_inv(r))
    &&& fresh.t2@ == g2_mul(sig.t2@, fr_inv(r))
}

/// Whether the first pairing equation holds.
pub open spec fn first_equation(pp: PublicParameters, pk: Seq<u8>, sig: Signature) -> bool {
    pairing(sig.r1@, sig.s2@) == gt_sum(pairing(pp.g1@, pp.y2@), pairing(pk, pp.g2@))
}

/// Whether the second pairing equation holds.
pub open spec fn second_equation(pp: PublicParameters, pk: Seq<u8>, sig: Signature, message: Seq<u8>) -> bool {
    pairing(sig.r1@, sig.t2@) == gt_sum(pairing(pk, pp.y2@), pairing(pp.g1@, message))
}

/// What verification returns.
pub open spec fn verify_outcome(pp: PublicParameters, pk: Seq<u8>, sig: Signature, message: Seq<u8>) -> Result<
    bool,
    Error,
> {
    if g1_is_identity(pk) {
        Err(Error::InvalidKey)
    } else if first_equation(pp, pk, sig) && second_equation(pp, pk, sig, message) {
        Ok(true)
    } else {
        Err(Error::SignatureVerificationFailed)
    }
}

/// Whether the parameters are the ones that `par_gen` derives.
pub open spec fn derived(pp: PublicParameters) -> bool {
    &&& g1_from_hex(G1_GENERATOR_HEX) == Some(pp.g1@)
    &&& g2_from_hex(G2_GENERATOR_HEX) == Some(pp.g2@)
    &&& pp.y2@ == groth::y2_point()
}

/// Whether no generator is the identity and the two generators of one
/// group differ.
pub open spec fn sound(pp: PublicParameters) -> bool {
    &&& distinct_g1(seq![pp.g1@])
    &&& distinct_g2(seq![pp.g2@, pp.y2@])
}

/// Derives the parameters and checks them as the shared parameters are
/// checked.
pub fn par_gen() -> (r: Result<PublicParameters, Error>)
    ensures
        match r {
            Ok(pp) => groth::par_gen_error() is None && derived(pp) && sound(pp),
            Err(e) => groth::par_gen_error() == Some(e),
        },
{
    match groth::par_gen() {
        Ok(all) => {
            proof {
                assert(distinct_g1(seq![all.g1@])) by {
                        assert(seq![all.g1@, all.y1@][0] == all.g1@);
                        assert(seq![all.g1@][0] == all.g1@);
                }
            }
            Ok(PublicParameters { g1: all.g1, g2: all.g2, y2: all.y2 })
        },
        Err(e) => Err(e),
    }
}

/// The key pair of a given secret, which must not be zero.
pub fn key_pair_from(pp: &PublicParameters, sk: SecretKey) -> (r: Result<KeyPair, Error>)
    ensures
        match r {
            Ok(pair) => sk.0@ != 0 && pair.secret_key == sk && pair.public_key.0@ == g1_mul(pp.g1@, sk.0@),
            Err(e) => e == Error::InvalidKey && sk.0@ == 0,
        },
{
    if sk.0.is_zero() {
        return Err(Error::InvalidKey);
    }
    let pk = g1_scale(&pp.g1, &sk.0);
    Ok(KeyPair { secret_key: sk, public_key: PublicKey(pk) })
}

/// A fresh key pair.
pub fn key_gen(pp: &PublicParameters) -> (r: Result<KeyPair, Error>)
    ensures
        match r {
            Ok(pair) => pair.secret_key.0@ != 0 && pair.public_key.0@ == g1_mul(pp.g1@, pair.secret_key.0@),
            Err(e) => e == Error::RandomnessFailure,
        },
{
    match Scalar::random_nonzero() {
        Ok(x) => key_pair_from(pp, SecretKey(x)),
        Err(e) => Err(e),
    }
}

/// The signature on the point that the nonce `r` gives.
pub fn sign_with(pp: &PublicParameters, sk: &SecretKey, message: &G2, r: &Scalar) -> (out: Result<Signature, Error>)
    ensures
        match out {
            Ok(sig) => sign_error(sk.0@, r@) is None && signs(*pp, sk.0@, message@, r@, sig),
            Err(e) => sign_error(sk.0@, r@) == Some(e),
        },
{
    if sk.0.is_zero() {
        return Err(Error::InvalidKey);
    }
    let r_inverse = match r.invert() {
        Some(i) => i,
        None => {
            return Err(Error::RandomnessFailure);
        },
    };
    let r1 = g1_scale(&pp.g1, r);
    let g2_x = g2_scale(&pp.g2, &sk.0);
    let s_base = g2_add(&pp.y2, &g2_x);
    let s2 = g2_scale(&s_base, &r_inverse);
    let y2_x = g2_scale(&pp.y2, &sk.0);
    let t_base = g2_add(&y2_x, message);
    let t2 = g2_scale(&t_base, &r_inverse);
    Ok(Signature { r1, s2, t2 })
}

/// A signature on the point under a fresh nonce.
pub fn sign(pp: &PublicParameters, sk: &SecretKey, message: &G2) -> (out: Result<Signature, Error>)
    ensures
        match out {
            Ok(sig) => sk.0@ != 0 && signed(*pp, sk.0@, message@, sig),
            Err(e) => if sk.0@ == 0 {
                e == Error::InvalidKey
            } else {
                e == Error::RandomnessFailure
            },
        },
{
    if sk.0.is_zero() {
        return Err(Error::InvalidKey);
    }
    match Scalar::random_nonzero() {
        Ok(r) => {
            proof {
                use_type_invariant(&r);
            }
            sign_with(pp, sk, message, &r)
        },
        Err(e) => Err(e),
    }
}

/// The signature randomized with `r`, which must not be zero.
pub fn rand_sign_with(sig: &Signature, r: &Scalar) -> (out: Result<Signature, Error>)
    ensures
        match out {
            Ok(fresh) => r@ != 0 && rerandomizes(*sig, r@, fresh),
            Err(e) => e == Error::RandomnessFailure && r@ == 0,
        },
{
    let r_inverse = match r.invert() {
        Some(i) => i,
        None => {
            return Err(Error::RandomnessFailure);
        },
    };
    let r1 = g1_scale(&sig.r1, r);
    let s2 = g2_scale(&sig.s2, &r_inverse);
    let t2 = g2_scale(&sig.t2, &r_inverse);
    Ok(Signature { r1, s2, t2 })
}

/// The signature randomized with a fresh scalar.
pub fn rand_sign(sig: &Signature) -> (out: Result<Signature, Error>)
    ensures
        match out {
            Ok(fresh) => exists|r: nat| 0 < r < modulus() && #[trigger] rerandomizes(*sig, r, fresh),
            Err(e) => e == Error::RandomnessFailure,
        },
{
    match Scalar::random_nonzero() {
        Ok(r) => {
            proof {
                use_type_invariant(&r);
            }
            rand_sign_with(sig, &r)
        },
        Err(e) => Err(e),
    }
}

/// Checks a signature on the point under a public key.
pub fn verify(pp: &PublicParameters, pk: &PublicKey, sig: &Signature, message: &G2) -> (r: Result<bool, Error>)
    ensures
        r == verify_outcome(*pp, pk.0@, *sig, message@),
{
    if pk.0.is_identity() {
        return Err(Error::InvalidKey);
    }
    let left1 = pair(&sig.r1, &sig.s2);
    let g1_y2 = pair(&pp.g1, &pp.y2);
    let pk_g2 = pair(&pk.0, &pp.g2);
    let right1 = gt_add(&g1_y2, &pk_g2);
    if !left1.same(&right1) {
        return Err(Error::SignatureVerificationFailed);
    }
    let left2 = pair(&sig.r1, &sig.t2);
    let pk_y2 = pair(&pk.0, &pp.y2);
    let g1_m = pair(&pp.g1, message);
    let right2 = gt_add(&pk_y2, &g1_m);
    if !left2.same(&right2) {
        return Err(Error::SignatureVerificationFailed);
    }
    Ok(true)
}

/// Whether the generators of the parameters are points.
pub open spec fn parameters_valid(pp: PublicParameters) -> bool {
    &&& is_g1(pp.g1@)
    &&& is_g2(pp.g2@)
    &&& is_g2(pp.y2@)
}

/// Under the laws of a bilinear group, a signature made with a secret
/// satisfies both pairing equations under the public key of that secret,
/// and is accepted unless the generator is the identity.
pub proof fn lemma_signature_verifies(pp: PublicParameters, x: nat, message: Seq<u8>, r: nat, sig: Signature)
    requires
        group_laws(),
        parameters_valid(pp),
        is_g2(message),
        x < modulus(),
        r < modulus(),
        sign_error(x, r) is None,
        signs(pp, x, message, r, sig),
    ensures
        first_equation(pp, g1_mul(pp.g1@, x), sig),
        second_equation(pp, g1_mul(pp.g1@, x), sig, message),
        !g1_is_identity(pp.g1@) ==> verify_outcome(pp, g1_mul(pp.g1@, x), sig, message) == Ok::<bool, Error>(
            true,
        ),
{
    let g1 = pp.g1@;
    let g2 = pp.g2@;
    let y2 = pp.y2@;
    let i = fr_inv(r);
    law_inverse(r);
    law_g1_mul(g1, r);
    law_g1_mul(g1, x);
    // e(g1 * r, P * r^-1) = e(g1, (P * r^-1) * r) = e(g1, P)
    let s_base = g2_sum(y2, g2_mul(g2, x));
    law_g2_mul(g2, x);
    law_g2_sum(y2, g2_mul(g2, x));
    law_g2_mul(s_base, i);
    law_pairing_scalar(g1, g2_mul(s_base, i), r);
    lemma_g2_inverse_scaling(s_base, r);
    law_pairing_right(g1, y2, g2_mul(g2, x));
    law_pairing_scalar(g1, g2, x);
    let t_base = g2_sum(g2_mul(y2, x), message);
    law_g2_mul(y2, x);
    law_g2_sum(g2_mul(y2, x), message);
    law_g2_mul(t_base, i);
    law_pairing_scalar(g1, g2_mul(t_base, i), r);
    lemma_g2_inverse_scaling(t_base, r);
    law_pairing_right(g1, g2_mul(y2, x), message);
    law_pairing_scalar(g1, y2, x);
    law_g1_identity(g1, x);
}

/// Under the laws of a bilinear group, randomizing a signature changes
/// neither side of either pairing equation, so the randomized signature is
/// accepted exactly when the signature is.
pub proof fn lemma_randomization_invariant(
    pp: PublicParameters,
    pk: Seq<u8>,
    message: Seq<u8>,
    sig: Signature,
    r: nat,
    fresh: Signature,
)
    requires
        group_laws(),
        is_g1(sig.r1@),
        is_g2(sig.s2@),
        is_g2(sig.t2@),
        0 < r < modulus(),
        rerandomizes(sig, r, fresh),
    ensures
        pairing(fresh.r1@, fresh.s2@) == pairing(sig.r1@, sig.s2@),
        pairing(fresh.r1@, fresh.t2@) == pairing(sig.r1@, sig.t2@),
        verify_outcome(pp, pk, fresh, message) == verify_outcome(pp, pk, sig, message),
{
    let i = fr_inv(r);
    law_g2_mul(sig.s2@, i);
    law_g2_mul(sig.t2@, i);
    law_pairing_scalar(sig.r1@, g2_mul(sig.s2@, i), r);
    law_pairing_scalar(sig.r1@, g2_mul(sig.t2@, i), r);
    lemma_g2_inverse_scaling(sig.s2@, r);
    lemma_g2_inverse_scaling(sig.t2@, r);
}

} // verus!
