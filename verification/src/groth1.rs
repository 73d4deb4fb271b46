//! Groth signatures on a point of the first group.
//!
//! With secret `x` and public key `g2 * x`, a signature on `M` under the
//! nonce `r` is `(R2, S1, T1) = (g2 * r, (y1 + g1 * x) * r^-1,
//! (y1 * x + M) * r^-1)`. It verifies when `e(S1, R2) = e(y1, g2) +
//! e(g1, pk)` and `e(T1, R2) = e(y1, pk) + e(M, g2)`.

use vstd::prelude::*;

use crate::algebra::{
    group_laws, is_g1, is_g2, law_g1_mul, law_g1_sum, law_g2_identity, law_g2_mul, law_pairing_left,
    law_pairing_scalar, lemma_g2_inverse_scaling,
};
use crate::error::Error;
use crate::group::{
    g1_add, g1_mul, g1_scale, g1_sum, g2_is_identity, g2_mul, g2_scale, gt_add, gt_sum, pair, pairing, G1, G2,
};
use crate::groth;
use crate::groth::SecretKey;
use crate::scalar::{fr_inv, modulus, Scalar};
use crate::setup::{distinct_g1, distinct_g2, g1_from_hex, g2_from_hex, G1_GENERATOR_HEX, G2_GENERATOR_HEX};

verus! {

/// The generators that the signature uses.
#[derive(Clone, Copy, Debug)]
pub struct PublicParameters {
    pub g1: G1,
    pub g2: G2,
    pub y1: G1,
}

/// A public key.
#[derive(Clone, Copy, Debug)]
pub struct PublicKey(pub G2);

/// A key pair.
#[derive(Clone, Copy, Debug)]
pub struct KeyPair {
    pub secret_key: SecretKey,
    pub public_key: PublicKey,
}

/// A signature.
#[derive(Clone, Copy, Debug)]
pub struct Signature {
    pub r2: G2,
    pub s1: G1,
    pub t1: G1,
}

/// Why no signature is made under the secret `x` with the nonce `r`, if
/// none is.
pub open spec fn sign_error(x: nat, r: nat) -> Option<Error> {
    if x == 0 {
        Some(Error::InvalidKey)
    } else if r == 0 {
        Some(Error::RandomnessFailure)
    } else {
        None
    }
}

/// Whether `sig` is the signature on `message` that the nonce `r` gives.
pub open spec fn signs(pp: PublicParameters, x: nat, message: Seq<u8>, r: nat, sig: Signature) -> bool {
    &&& sig.r2@ == g2_mul(pp.g2@, r)
    &&& sig.s1@ == g1_mul(g1_sum(pp.y1@, g1_mul(pp.g1@, x)), fr_inv(r))
    &&& sig.t1@ == g1_mul(g1_sum(g1_mul(pp.y1@, x), message), fr_inv(r))
}

/// Whether `sig` is a signature on `message` made with some nonce.
pub open spec fn signed(pp: PublicParameters, x: nat, message: Seq<u8>, sig: Signature) -> bool {
    exists|r: nat| 0 < r < modulus() && #[trigger] signs(pp, x, message, r, sig)
}

/// Whether `fresh` is `sig` randomized with `r`.
pub open spec fn rerandomizes(sig: Signature, r: nat, fresh: Signature) -> bool {
    &&& fresh.r2@ == g2_mul(sig.r2@, r)
    &&& fresh.s1@ == g1_mul(sig.s1@, fr_inv(r))
    &&& fresh.t1@ == g1_mul(sig.t1@, fr_inv(r))
}

/// Whether the first pairing equation holds.
pub open spec fn first_equation(pp: PublicParameters, pk: Seq<u8>, sig: Signature) -> bool {
    pairing(sig.s1@, sig.r2@) == gt_sum(pairing(pp.y1@, pp.g2@), pairing(pp.g1@, pk))
}

/// Whether the second pairing equation holds.
pub open spec fn second_equation(pp: PublicParameters, pk: Seq<u8>, sig: Signature, message: Seq<u8>) -> bool {
    pairing(sig.t1@, sig.r2@) == gt_sum(pairing(pp.y1@, pk), pairing(message, pp.g2@))
}

/// What verification returns.
pub open spec fn verify_outcome(pp: PublicParameters, pk: Seq<u8>, sig: Signature, message: Seq<u8>) -> Result<
    bool,
    Error,
> {
    if g2_is_identity(pk) {
        Err(Error::InvalidKey)
    } else if first_equation(pp, pk, sig) && second_equation(pp, pk, sig, message) {
        Ok(true)
    } else {
        Err(Error::SignatureVerificationFailed)
    }
}

/// Whether the parameters are the ones that `par_gen` derives.
pub open spec fn derived(pp: PublicParameters) -> bool {
    &&& g1_from_hex(G1_GENERATOR_HEX) == Some(pp.g1@)
    &&& g2_from_hex(G2_GENERATOR_HEX) == Some(pp.g2@)
    &&& pp.y1@ == groth::y1_point()
}

/// Whether no generator is the identity and the two generators of one
/// group differ.
pub open spec fn sound(pp: PublicParameters) -> bool {
    &&& distinct_g1(seq![pp.g1@, pp.y1@])
    &&& distinct_g2(seq![pp.g2@])
}

/// Derives the parameters and checks them as the shared parameters are
/// checked.
pub fn par_gen() -> (r: Result<PublicParameters, Error>)
    ensures
        match r {
            Ok(pp) => groth::par_gen_error() is None && derived(pp) && sound(pp),
            Err(e) => groth::par_gen_error() == Some(e),
        },
{
    match groth::par_gen() {
        Ok(all) => {
            proof {
                assert(distinct_g2(seq![all.g2@])) by {
                        assert(seq![all.g2@, all.y2@][0] == all.g2@);
                        assert(seq![all.g2@][0] == all.g2@);
                }
            }
            Ok(PublicParameters { g1: all.g1, g2: all.g2, y1: all.y1 })
        },
        Err(e) => Err(e),
    }
}

/// The key pair of a given secret, which must not be zero.
pub fn key_pair_from(pp: &PublicParameters, sk: SecretKey) -> (r: Result<KeyPair, Error>)
    ensures
        match r {
            Ok(pair) => sk.0@ != 0 && pair.secret_key == sk && pair.public_key.0@ == g2_mul(pp.g2@, sk.0@),
            Err(e) => e == Error::InvalidKey && sk.0@ == 0,
        },
{
    if sk.0.is_zero() {
        return Err(Error::InvalidKey);
    }
    let pk = g2_scale(&pp.g2, &sk.0);
    Ok(KeyPair { secret_key: sk, public_key: PublicKey(pk) })
}

/// A fresh key pair.
pub fn key_gen(pp: &PublicParameters) -> (r: Result<KeyPair, Error>)
    ensures
        match r {
            Ok(pair) => pair.secret_key.0@ != 0 && pair.public_key.0@ == g2_mul(pp.g2@, pair.secret_key.0@),
            Err(e) => e == Error::RandomnessFailure,
        },
{
    match Scalar::random_nonzero() {
        Ok(x) => key_pair_from(pp, SecretKey(x)),
        Err(e) => Err(e),
    }
}

/// The signature on the point that the nonce `r` gives.
pub fn sign_with(pp: &PublicParameters, sk: &SecretKey, message: &G1, r: &Scalar) -> (out: Result<Signature, Error>)
    ensures
        match out {
            Ok(sig) => sign_error(sk.0@, r@) is None && signs(*pp, sk.0@, message@, r@, sig),
            Err(e) => sign_error(sk.0@, r@) == Some(e),
        },
{
    if sk.0.is_zero() {
        return Err(Error::InvalidKey);
    }
    let r_inverse = match r.invert() {
        Some(i) => i,
        None => {
            return Err(Error::RandomnessFailure);
        },
    };
    let r2 = g2_scale(&pp.g2, r);
    let g1_x = g1_scale(&pp.g1, &sk.0);
    let s_base = g1_add(&pp.y1, &g1_x);
    let s1 = g1_scale(&s_base, &r_inverse);
    let y1_x = g1_scale(&pp.y1, &sk.0);
    let t_base = g1_add(&y1_x, message);
    let t1 = g1_scale(&t_base, &r_inverse);
    Ok(Signature { r2, s1, t1 })
}

/// A signature on the point under a fresh nonce.
pub fn sign(pp: &PublicParameters, sk: &SecretKey, message: &G1) -> (out: Result<Signature, Error>)
    ensures
        match out {
            Ok(sig) => sk.0@ != 0 && signed(*pp, sk.0@, message@, sig),
            Err(e) => if sk.0@ == 0 {
                e == Error::InvalidKey
            } else {
                e == Error::RandomnessFailure
            },
        },
{
    if sk.0.is_zero() {
        return Err(Error::InvalidKey);
    }
    match Scalar::random_nonzero() {
        Ok(r) => {
            proof {
                use_type_invariant(&r);
            }
            sign_with(pp, sk, message, &r)
        },
        Err(e) => Err(e),
    }
}

/// The signature randomized with `r`, which must not be zero.
pub fn rand_sign_with(sig: &Signature, r: &Scalar) -> (out: Result<Signature, Error>)
    ensures
        match out {
            Ok(fresh) => r@ != 0 && rerandomizes(*sig, r@, fresh),
            Err(e) => e == Error::RandomnessFailure && r@ == 0,
        },
{
    let r_inverse = match r.invert() {
        Some(i) => i,
        None => {
            return Err(Error::RandomnessFailure);
        },
    };
    let r2 = g2_scale(&sig.r2, r);
    let s1 = g1_scale(&sig.s1, &r_inverse);
    let t1 = g1_scale(&sig.t1, &r_inverse);
    Ok(Signature { r2, s1, t1 })
}

/// The signature randomized with a fresh scalar.
pub fn rand_sign(sig: &Signature) -> (out: Result<Signature, Error>)
    ensures
        match out {
            Ok(fresh) => exists|r: nat| 0 < r < modulus() && #[trigger] rerandomizes(*sig, r, fresh),
            Err(e) => e == Error::RandomnessFailure,
        },
{
    match Scalar::random_nonzero() {
        Ok(r) => {
            proof {
                use_type_invariant(&r);
            }
            rand_sign_with(sig, &r)
        },
        Err(e) => Err(e),
    }
}

/// Checks a signature on the point under a public key.
pub fn verify(pp: &PublicParameters, pk: &PublicKey, sig: &Signature, message: &G1) -> (r: Result<bool, Error>)
    ensures
        r == verify_outcome(*pp, pk.0@, *sig, message@),
{
    if pk.0.is_identity() {
        return Err(Error::InvalidKey);
    }
    let left1 = pair(&sig.s1, &sig.r2);
    let y1_g2 = pair(&pp.y1, &pp.g2);
    let g1_pk = pair(&pp.g1, &pk.0);
    let right1 = gt_add(&y1_g2, &g1_pk);
    if !left1.same(&right1) {
        return Err(Error::SignatureVerificationFailed);
    }
    let left2 = pair(&sig.t1, &sig.r2);
    let y1_pk = pair(&pp.y1, &pk.0);
    let m_g2 = pair(message, &pp.g2);
    let right2 = gt_add(&y1_pk, &m_g2);
    if !left2.same(&right2) {
        return Err(Error::SignatureVerificationFailed);
    }
    Ok(true)
}

/// Whether the generators of the parameters are points.
pub open spec fn parameters_valid(pp: PublicParameters) -> bool {
    &&& is_g1(pp.g1@)
    &&& is_g2(pp.g2@)
    &&& is_g1(pp.y1@)
}

/// Under the laws of a bilinear group, a signature made with a secret
/// satisfies both pairing equations under the public key of that secret,
/// and is accepted unless the generator is the identity.
pub proof fn lemma_signature_verifies(pp: PublicParameters, x: nat, message: Seq<u8>, r: nat, sig: Signature)
    requires
        group_laws(),
        parameters_valid(pp),
        is_g1(message),
        x < modulus(),
        r < modulus(),
        sign_error(x, r) is None,
        signs(pp, x, message, r, sig),
    ensures
        first_equation(pp, g2_mul(pp.g2@, x), sig),
        second_equation(pp, g2_mul(pp.g2@, x), sig, message),
        !g2_is_identity(pp.g2@) ==> verify_outcome(pp, g2_mul(pp.g2@, x), sig, message) == Ok::<bool, Error>(
            true,
        ),
{
    let g1 = pp.g1@;
    let g2 = pp.g2@;
    let y1 = pp.y1@;
    let i = fr_inv(r);
    // R2 * r^-1 = g2
    lemma_g2_inverse_scaling(g2, r);
    law_g2_mul(g2, r);
    law_g2_mul(g2, x);
    // first equation
    let s_base = g1_sum(y1, g1_mul(g1, x));
    law_g1_mul(g1, x);
    law_g1_sum(y1, g1_mul(g1, x));
    law_pairing_scalar(s_base, g2_mul(g2, r), i);
    law_pairing_left(y1, g1_mul(g1, x), g2);
    law_pairing_scalar(g1, g2, x);
    // second equation
    let t_base = g1_sum(g1_mul(y1, x), message);
    law_g1_mul(y1, x);
    law_g1_sum(g1_mul(y1, x), message);
    law_pairing_scalar(t_base, g2_mul(g2, r), i);
    law_pairing_left(g1_mul(y1, x), message, g2);
    law_pairing_scalar(y1, g2, x);
    law_g2_identity(g2, x);
}

/// Under the laws of a bilinear group, randomizing a signature changes
/// neither side of either pairing equation, so the randomized signature is
/// accepted exactly when the signature is.
pub proof fn lemma_randomization_invariant(
    pp: PublicParameters,
    pk: Seq<u8>,
    message: Seq<u8>,
    sig: Signature,
    r: nat,
    fresh: Signature,
)
    requires
        group_laws(),
        is_g2(sig.r2@),
        is_g1(sig.s1@),
        is_g1(sig.t1@),
        0 < r < modulus(),
        rerandomizes(sig, r, fresh),
    ensures
        pairing(fresh.s1@, fresh.r2@) == pairing(sig.s1@, sig.r2@),
        pairing(fresh.t1@, fresh.r2@) == pairing(sig.t1@, sig.r2@),
        verify_outcome(pp, pk, fresh, message) == verify_outcome(pp, pk, sig, message),
{
    let i = fr_inv(r);
    law_g2_mul(sig.r2@, r);
    lemma_g2_inverse_scaling(sig.r2@, r);
    law_pairing_scalar(sig.s1@, g2_mul(sig.r2@, r), i);
    law_pairing_scalar(sig.t1@, g2_mul(sig.r2@, r), i);
}

/// Whether a key of the list is the identity.
pub open spec fn lists_identity(ipks: Seq<PublicKey>) -> bool {
    exists|i: int| 0 <= i < ipks.len() && g2_is_identity((#[trigger] ipks[i]).0@)
}

/// Whether no key of the list is the identity.
pub fn check_keys(ipks: &Vec<PublicKey>) -> (r: bool)
    ensures
        r == !lists_identity(ipks@),
{
    let mut i: usize = 0;
    while i < ipks.len()
        invariant
            i <= ipks.len(),
            forall|j: int| 0 <= j < i ==> !g2_is_identity((#[trigger] ipks@[j]).0@),
        decreases ipks.len() - i,
    {
        if ipks[i].0.is_identity() {
            return false;
        }
        i += 1;
    }
    true
}

} // verus!
