//! BBS signatures on an issuer's public key, as a verifier makes them.
//!
//! With secret `x` and public key `(gbar1 * x, gbar2 * x)`, a signature on a
//! point `M` of the second group is a pair `(A, e)` with
//! `A = (gbar2 + M) * (x + e)^-1`. It verifies when
//! `e(gbar1 * e + pk, A) = e(gbar1, gbar2 + M)`.

use vstd::prelude::*;
use vstd::string::*;

use crate::algebra::{
    group_laws, is_g1, is_g2, law_g1_identity, law_g1_mul_add, law_g2_mul, law_g2_sum, law_pairing_scalar,
    lemma_fr_basics, lemma_g2_inverse_scaling,
};
use crate::bbs::{
    gbar1_point, gbar2_point, SecretKey, GBAR1_SEED, GBAR2_SEED, GENERATOR_DST_G1, GENERATOR_DST_G2,
};
use crate::error::Error;
use crate::group::{
    g1_add, g1_is_identity, g1_mul, g1_scale, g1_sum, g2_add, g2_is_identity, g2_mul, g2_scale, g2_sum, pair,
    pairing, G1, G2,
};
use crate::hashing::{hash_to_g1, hash_to_g2};
use crate::scalar::{fr_add, fr_inv, fr_sum, modulus, Scalar};

verus! {

/// The generators that issuer keys are signed under.
#[derive(Clone, Copy, Debug)]
pub struct PublicParameters {
    pub gbar1: G1,
    pub gbar2: G2,
}

/// A verifier's public key, one point in each group.
#[derive(Clone, Copy, Debug)]
pub struct PublicKey(pub G1, pub G2);

/// A verifier's key pair.
#[derive(Clone, Copy, Debug)]
pub struct KeyPair {
    pub secret_key: SecretKey,
    pub public_key: PublicKey,
}

/// A signature on a point of the second group.
#[derive(Clone, Copy, Debug)]
pub struct Signature {
    pub a: G2,
    pub e: Scalar,
}

/// The point `A` of the signature on `message` made with the nonce `e`
/// under the secret `x`.
pub open spec fn signature_point(gbar2: Seq<u8>, x: nat, message: Seq<u8>, e: nat) -> Seq<u8> {
    g2_mul(g2_sum(gbar2, message), fr_inv(fr_sum(x, e)))
}

/// Why no signature is made with the nonce `e`, if none is.
pub open spec fn sign_error(gbar2: Seq<u8>, x: nat, message: Seq<u8>, e: nat) -> Option<Error> {
    if x == 0 {
        Some(Error::InvalidKey)
    } else if e == 0 || fr_sum(x, e) == 0 {
        Some(Error::RandomnessFailure)
    } else if g2_is_identity(signature_point(gbar2, x, message, e)) {
        Some(Error::RandomnessFailure)
    } else {
        None
    }
}

/// Whether `sig` is the signature on `message` that its nonce gives.
pub open spec fn signs(gbar2: Seq<u8>, x: nat, message: Seq<u8>, sig: Signature) -> bool {
    &&& sign_error(gbar2, x, message, sig.e@) is None
    &&& sig.a@ == signature_point(gbar2, x, message, sig.e@)
}

/// Whether the pairing equation of a signature `(a, e)` holds.
pub open spec fn equation_holds(
    gbar1: Seq<u8>,
    gbar2: Seq<u8>,
    pk: Seq<u8>,
    message: Seq<u8>,
    a: Seq<u8>,
    e: nat,
) -> bool {
    pairing(g1_sum(g1_mul(gbar1, e), pk), a) == pairing(gbar1, g2_sum(gbar2, message))
}

/// What verification of a signature `(a, e)` returns.
pub open spec fn verify_outcome(
    gbar1: Seq<u8>,
    gbar2: Seq<u8>,
    pk: Seq<u8>,
    message: Seq<u8>,
    a: Seq<u8>,
    e: nat,
) -> Result<bool, Error> {
    if g1_is_identity(pk) {
        Err(Error::InvalidKey)
    } else if equation_holds(gbar1, gbar2, pk, message, a, e) {
        Ok(true)
    } else {
        Err(Error::SignatureVerificationFailed)
    }
}

/// Whether neither generator is the identity.
pub open spec fn sound(pp: PublicParameters) -> bool {
    &&& !g1_is_identity(pp.gbar1@)
    &&& !g2_is_identity(pp.gbar2@)
}

/// Derives the parameters and checks that neither generator is the
/// identity.
pub fn par_gen() -> (r: Result<PublicParameters, Error>)
    ensures
        match r {
            Ok(pp) => pp.gbar1@ == gbar1_point() && pp.gbar2@ == gbar2_point() && sound(pp),
            Err(e) => e == Error::InvalidParameter && (g1_is_identity(gbar1_point()) || g2_is_identity(
                gbar2_point(),
            )),
        },
{
    let gbar1 = hash_to_g1(GBAR1_SEED.as_bytes(), GENERATOR_DST_G1.as_bytes());
    let gbar2 = hash_to_g2(GBAR2_SEED.as_bytes(), GENERATOR_DST_G2.as_bytes());
    if gbar1.is_identity() || gbar2.is_identity() {
        return Err(Error::InvalidParameter);
    }
    Ok(PublicParameters { gbar1, gbar2 })
}

/// The key pair of a given secret, which must not be zero.
pub fn key_pair_from(pp: &PublicParameters, sk: SecretKey) -> (r: Result<KeyPair, Error>)
    ensures
        match r {
            Ok(pair) => sk.0@ != 0 && pair.secret_key == sk && pair.public_key.0@ == g1_mul(pp.gbar1@, sk.0@)
                && pair.public_key.1@ == g2_mul(pp.gbar2@, sk.0@),
            Err(e) => e == Error::InvalidKey && sk.0@ == 0,
        },
{
    if sk.0.is_zero() {
        return Err(Error::InvalidKey);
    }
    let pk1 = g1_scale(&pp.gbar1, &sk.0);
    let pk2 = g2_scale(&pp.gbar2, &sk.0);
    Ok(KeyPair { secret_key: sk, public_key: PublicKey(pk1, pk2) })
}

/// A fresh key pair.
pub fn key_gen(pp: &PublicParameters) -> (r: Result<KeyPair, Error>)
    ensures
        match r {
            Ok(pair) => pair.secret_key.0@ != 0 && pair.public_key.0@ == g1_mul(
                pp.gbar1@,
                pair.secret_key.0@,
            ) && pair.public_key.1@ == g2_mul(pp.gbar2@, pair.secret_key.0@),
            Err(e) => e == Error::RandomnessFailure,
        },
{
    match Scalar::random_nonzero() {
        Ok(x) => key_pair_from(pp, SecretKey(x)),
        Err(e) => Err(e),
    }
}

/// The signature on the point that the nonce `e` gives.
pub fn sign_with(pp: &PublicParameters, sk: &SecretKey, message: &G2, e: &Scalar) -> (r: Result<Signature, Error>)
    ensures
        match r {
            Ok(sig) => sig.e == *e && signs(pp.gbar2@, sk.0@, message@, sig),
            Err(err) => sign_error(pp.gbar2@, sk.0@, message@, e@) == Some(err),
        },
{
    if sk.0.is_zero() {
        return Err(Error::InvalidKey);
    }
    if e.is_zero() {
        return Err(Error::RandomnessFailure);
    }
    let sum = fr_add(&sk.0, e);
    let inverse = match sum.invert() {
        Some(i) => i,
        None => {
            return Err(Error::RandomnessFailure);
        },
    };
    let base = g2_add(&pp.gbar2, message);
    let a = g2_scale(&base, &inverse);
    if a.is_identity() {
        return Err(Error::RandomnessFailure);
    }
    Ok(Signature { a, e: *e })
}

/// A signature on the point under a fresh nonce. A nonce that gives no
/// signature is drawn again, a few times.
pub fn sign(pp: &PublicParameters, sk: &SecretKey, message: &G2) -> (r: Result<Signature, Error>)
    ensures
        match r {
            Ok(sig) => signs(pp.gbar2@, sk.0@, message@, sig),
            Err(err) => if sk.0@ == 0 {
                err == Error::InvalidKey
            } else {
                err == Error::RandomnessFailure
            },
        },
{
    let mut tries: usize = 0;
    while tries < 8
        invariant
            tries <= 8,
        decreases 8 - tries,
    {
        let e = Scalar::random();
        match sign_with(pp, sk, message, &e) {
            Ok(sig) => {
                return Ok(sig);
            },
            Err(Error::RandomnessFailure) => {},
            Err(err) => {
                return Err(err);
            },
        }
        tries += 1;
    }
    if sk.0.is_zero() {
        Err(Error::InvalidKey)
    } else {
        Err(Error::RandomnessFailure)
    }
}

/// Checks a signature on the point under a public key.
pub fn verify(pp: &PublicParameters, pk: &PublicKey, message: &G2, signature: &Signature) -> (r: Result<
    bool,
    Error,
>)
    ensures
        r == verify_outcome(pp.gbar1@, pp.gbar2@, pk.0@, message@, signature.a@, signature.e@),
{
    if pk.0.is_identity() {
        return Err(Error::InvalidKey);
    }
    let ge = g1_scale(&pp.gbar1, &signature.e);
    let left_p = g1_add(&ge, &pk.0);
    let right_q = g2_add(&pp.gbar2, message);
    let left = pair(&left_p, &signature.a);
    let right = pair(&pp.gbar1, &right_q);
    if left.same(&right) {
        Ok(true)
    } else {
        Err(Error::SignatureVerificationFailed)
    }
}

/// Under the laws of a bilinear group, the signature that a nonce gives
/// under a secret satisfies the pairing equation under the public key of
/// that secret, and is accepted unless the generator is the identity.
pub proof fn lemma_signature_verifies(gbar1: Seq<u8>, gbar2: Seq<u8>, x: nat, message: Seq<u8>, e: nat)
    requires
        group_laws(),
        is_g1(gbar1),
        is_g2(gbar2),
        is_g2(message),
        x < modulus(),
        e < modulus(),
        sign_error(gbar2, x, message, e) is None,
    ensures
        equation_holds(gbar1, gbar2, g1_mul(gbar1, x), message, signature_point(gbar2, x, message, e), e),
        !g1_is_identity(gbar1) ==> verify_outcome(
            gbar1,
            gbar2,
            g1_mul(gbar1, x),
            message,
            signature_point(gbar2, x, message, e),
            e,
        ) == Ok::<bool, Error>(true),
{
    let s = fr_sum(x, e);
    let base = g2_sum(gbar2, message);
    lemma_fr_basics(x, e);
    lemma_fr_basics(e, x);
    law_g2_sum(gbar2, message);
    law_g2_mul(base, fr_inv(s));
    // gbar1 * e + pk = gbar1 * (e + x)
    law_g1_mul_add(gbar1, e, x);
    // e(gbar1 * s, A) = e(gbar1, A * s), and (base * s^-1) * s = base
    law_pairing_scalar(gbar1, g2_mul(base, fr_inv(s)), s);
    lemma_g2_inverse_scaling(base, s);
    law_g1_identity(gbar1, x);
}

} // verus!
