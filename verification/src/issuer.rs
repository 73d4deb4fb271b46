//! BBS signatures on a vector of attributes, as an issuer makes them.
//!
//! With secret `x` and public key `g2 * x`, a signature on `m` is a pair
//! `(A, e)` with `A = (g1 + sum h[i] * m[i]) * (x + e)^-1`. It verifies when
//! `e(A, pk + g2 * e) = e(g1 + sum h[i] * m[i], g2)`.

use vstd::prelude::*;

use crate::algebra::{
    all_g1, group_laws, is_g1, is_g2, law_g2_identity, law_g2_mul, law_g2_mul_add, law_pairing_scalar,
    lemma_fr_basics, lemma_g1_lincomb_valid, lemma_g2_inverse_scaling,
};
use crate::bbs::SecretKey;
use crate::error::Error;
use crate::group::{
    g1_is_identity, g1_mul, g1_scale, g2_add, g2_is_identity, g2_mul, g2_scale, g2_sum, pair, pairing, G1, G2,
};
use crate::linear::{g1_combine, g1_lincomb, g1_views, g2_views, values};
use crate::scalar::{fr_add, fr_inv, fr_sum, modulus, Scalar};
use crate::setup::{
    check_distinct_g1, check_distinct_g2, decode_g1_hex, decode_g2_hex, distinct_g1, distinct_g2, g1_from_hex,
    g2_from_hex, generators, joined, message_generators, G1_GENERATOR_HEX, G2_GENERATOR_HEX, MAX_ATTRIBUTES,
};

verus! {

/// The generators that attribute vectors are signed under.
#[derive(Clone, Debug)]
pub struct PublicParameters {
    pub g1: G1,
    pub g2: G2,
    pub h_vec: Vec<G1>,
}

/// An issuer's public key.
#[derive(Clone, Copy, Debug)]
pub struct PublicKey(pub G2);

/// An issuer's key pair.
#[derive(Clone, Copy, Debug)]
pub struct KeyPair {
    pub secret_key: SecretKey,
    pub public_key: PublicKey,
}

/// A signature on an attribute vector.
#[derive(Clone, Copy, Debug)]
pub struct Signature {
    pub a: G1,
    pub e: Scalar,
}

/// Whether the parameters are the ones that `par_gen` derives.
pub open spec fn derived(pp: PublicParameters) -> bool {
    &&& g1_from_hex(G1_GENERATOR_HEX) == Some(pp.g1@)
    &&& g2_from_hex(G2_GENERATOR_HEX) == Some(pp.g2@)
    &&& g1_views(pp.h_vec@) == generators(MAX_ATTRIBUTES as nat)
}

/// The point `g1 + sum h[i] * m[i]` that commits to the attributes.
pub open spec fn commitment(g1: Seq<u8>, h: Seq<Seq<u8>>, m: Seq<nat>) -> Seq<u8> {
    g1_lincomb(g1, h, m, m.len())
}

/// The point `A` of the signature made with the nonce `e` under the secret
/// `x`.
pub open spec fn signature_point(g1: Seq<u8>, h: Seq<Seq<u8>>, x: nat, m: Seq<nat>, e: nat) -> Seq<u8> {
    g1_mul(commitment(g1, h, m), fr_inv(fr_sum(x, e)))
}

/// Why no signature is made with the nonce `e`, if none is.
pub open spec fn sign_error(g1: Seq<u8>, h: Seq<Seq<u8>>, x: nat, m: Seq<nat>, e: nat) -> Option<Error> {
    if m.len() > h.len() {
        Some(Error::InvalidParameter)
    } else if x == 0 {
        Some(Error::InvalidKey)
    } else if e == 0 || fr_sum(x, e) == 0 {
        Some(Error::RandomnessFailure)
    } else if g1_is_identity(signature_point(g1, h, x, m, e)) {
        Some(Error::RandomnessFailure)
    } else {
        None
    }
}

/// Whether `(a, e)` is the signature that the nonce `e` gives.
pub open spec fn signs(pp: PublicParameters, sk: SecretKey, m: Seq<Scalar>, sig: Signature) -> bool {
    &&& sign_error(pp.g1@, g1_views(pp.h_vec@), sk.0@, values(m), sig.e@) is None
    &&& sig.a@ == signature_point(pp.g1@, g1_views(pp.h_vec@), sk.0@, values(m), sig.e@)
}

/// Whether the pairing equation of a signature `(a, e)` holds.
pub open spec fn equation_holds(
    g1: Seq<u8>,
    g2: Seq<u8>,
    h: Seq<Seq<u8>>,
    pk: Seq<u8>,
    m: Seq<nat>,
    a: Seq<u8>,
    e: nat,
) -> bool {
    pairing(a, g2_sum(pk, g2_mul(g2, e))) == pairing(commitment(g1, h, m), g2)
}

/// What verification of a signature `(a, e)` returns.
pub open spec fn verify_outcome(
    g1: Seq<u8>,
    g2: Seq<u8>,
    h: Seq<Seq<u8>>,
    pk: Seq<u8>,
    m: Seq<nat>,
    a: Seq<u8>,
    e: nat,
) -> Result<bool, Error> {
    if m.len() > h.len() {
        Err(Error::InvalidParameter)
    } else if g2_is_identity(pk) {
        Err(Error::InvalidKey)
    } else if equation_holds(g1, g2, h, pk, m, a, e) {
        Ok(true)
    } else {
        Err(Error::SignatureVerificationFailed)
    }
}

/// Why no parameters are derived, if none are: a published encoding does
/// not decode, or a generator is the identity, or two generators of the
/// first group are the same.
pub open spec fn par_gen_error() -> Option<Error> {
    match (g1_from_hex(G1_GENERATOR_HEX), g2_from_hex(G2_GENERATOR_HEX)) {
        (Some(g1), Some(g2)) => if distinct_g1(seq![g1] + generators(MAX_ATTRIBUTES as nat)) && distinct_g2(
            seq![g2],
        ) {
            None
        } else {
            Some(Error::InvalidParameter)
        },
        _ => Some(Error::InvalidEncoding),
    }
}

/// Whether no generator is the identity and no two generators of the first
/// group are the same.
pub open spec fn sound(pp: PublicParameters) -> bool {
    &&& distinct_g1(seq![pp.g1@] + g1_views(pp.h_vec@))
    &&& distinct_g2(seq![pp.g2@])
}

/// Derives the parameters and checks that no generator is the identity and
/// that the generators of the first group differ from one another.
pub fn par_gen() -> (r: Result<PublicParameters, Error>)
    ensures
        match r {
            Ok(pp) => par_gen_error() is None && derived(pp) && sound(pp),
            Err(e) => par_gen_error() == Some(e),
        },
{
    let g1 = match decode_g1_hex(G1_GENERATOR_HEX) {
        Ok(p) => p,
        Err(e) => {
            return Err(e);
        },
    };
    let g2 = match decode_g2_hex(G2_GENERATOR_HEX) {
        Ok(p) => p,
        Err(e) => {
            return Err(e);
        },
    };
    let h_vec = message_generators(MAX_ATTRIBUTES);
    let first = vec![g1];
    let all1 = joined(&first, &h_vec);
    let all2 = vec![g2];
    assert(g1_views(first@) =~= seq![g1@]);
    assert(g2_views(all2@) =~= seq![g2@]);
    if !check_distinct_g1(&all1) || !check_distinct_g2(&all2) {
        return Err(Error::InvalidParameter);
    }
    Ok(PublicParameters { g1, g2, h_vec })
}

/// The key pair of a given secret, which must not be zero.
pub fn key_pair_from(pp: &PublicParameters, sk: SecretKey) -> (r: Result<KeyPair, Error>)
    ensures
        match r {
            Ok(pair) => sk.0@ != 0 && pair.secret_key == sk && pair.public_key.0@ == g2_mul(pp.g2@, sk.0@),
            Err(e) => e == Error::InvalidKey && sk.0@ == 0,
        },
{
    if sk.0.is_zero() {
        return Err(Error::InvalidKey);
    }
    let pk = g2_scale(&pp.g2, &sk.0);
    Ok(KeyPair { secret_key: sk, public_key: PublicKey(pk) })
}

/// A fresh key pair.
pub fn key_gen(pp: &PublicParameters) -> (r: Result<KeyPair, Error>)
    ensures
        match r {
            Ok(pair) => pair.secret_key.0@ != 0 && pair.public_key.0@ == g2_mul(pp.g2@, pair.secret_key.0@),
            Err(e) => e == Error::RandomnessFailure,
        },
{
    match Scalar::random_nonzero() {
        Ok(x) => key_pair_from(pp, SecretKey(x)),
        Err(e) => Err(e),
    }
}

/// The signature on the attributes that the nonce `e` gives.
pub fn sign_with(pp: &PublicParameters, sk: &SecretKey, messages: &Vec<Scalar>, e: &Scalar) -> (r: Result<
    Signature,
    Error,
>)
    ensures
        match r {
            Ok(sig) => sig.e == *e && signs(*pp, *sk, messages@, sig),
            Err(err) => sign_error(pp.g1@, g1_views(pp.h_vec@), sk.0@, values(messages@), e@) == Some(err),
        },
{
    if messages.len() > pp.h_vec.len() {
        return Err(Error::InvalidParameter);
    }
    if sk.0.is_zero() {
        return Err(Error::InvalidKey);
    }
    if e.is_zero() {
        return Err(Error::RandomnessFailure);
    }
    let sum = fr_add(&sk.0, e);
    let inverse = match sum.invert() {
        Some(i) => i,
        None => {
            return Err(Error::RandomnessFailure);
        },
    };
    let b = g1_combine(&pp.g1, &pp.h_vec, messages, messages.len());
    assert(values(messages@).len() == messages@.len());
    let a = g1_scale(&b, &inverse);
    if a.is_identity() {
        return Err(Error::RandomnessFailure);
    }
    Ok(Signature { a, e: *e })
}

/// A signature on the attributes under a fresh nonce. A nonce that gives
/// no signature is drawn again, a few times.
pub fn sign(pp: &PublicParameters, sk: &SecretKey, messages: &Vec<Scalar>) -> (r: Result<Signature, Error>)
    ensures
        match r {
            Ok(sig) => signs(*pp, *sk, messages@, sig),
            Err(err) => if messages@.len() > pp.h_vec@.len() {
                err == Error::InvalidParameter
            } else if sk.0@ == 0 {
                err == Error::InvalidKey
            } else {
                err == Error::RandomnessFailure
            },
        },
{
    let mut tries: usize = 0;
    while tries < 8
        invariant
            tries <= 8,
        decreases 8 - tries,
    {
        let e = Scalar::random();
        match sign_with(pp, sk, messages, &e) {
            Ok(sig) => {
                return Ok(sig);
            },
            Err(Error::RandomnessFailure) => {},
            Err(err) => {
                return Err(err);
            },
        }
        tries += 1;
    }
    if messages.len() > pp.h_vec.len() {
        Err(Error::InvalidParameter)
    } else if sk.0.is_zero() {
        Err(Error::InvalidKey)
    } else {
        Err(Error::RandomnessFailure)
    }
}

/// Checks a signature on the attributes under a public key.
pub fn verify(pp: &PublicParameters, pk: &PublicKey, messages: &Vec<Scalar>, signature: &Signature) -> (r:
    Result<bool, Error>)
    ensures
        r == verify_outcome(
            pp.g1@,
            pp.g2@,
            g1_views(pp.h_vec@),
            pk.0@,
            values(messages@),
            signature.a@,
            signature.e@,
        ),
{
    if messages.len() > pp.h_vec.len() {
        return Err(Error::InvalidParameter);
    }
    if pk.0.is_identity() {
        return Err(Error::InvalidKey);
    }
    let b = g1_combine(&pp.g1, &pp.h_vec, messages, messages.len());
    assert(values(messages@).len() == messages@.len());
    let g2e = g2_scale(&pp.g2, &signature.e);
    let q = g2_add(&pk.0, &g2e);
    let left = pair(&signature.a, &q);
    let right = pair(&b, &pp.g2);
    if left.same(&right) {
        Ok(true)
    } else {
        Err(Error::SignatureVerificationFailed)
    }
}

/// Under the laws of a bilinear group, the signature that a nonce gives
/// under a secret satisfies the pairing equation under the public key of
/// that secret, and is accepted unless the generator is the identity.
pub proof fn lemma_signature_verifies(g1: Seq<u8>, g2: Seq<u8>, h: Seq<Seq<u8>>, x: nat, m: Seq<nat>, e: nat)
    requires
        group_laws(),
        is_g1(g1),
        is_g2(g2),
        all_g1(h),
        x < modulus(),
        e < modulus(),
        sign_error(g1, h, x, m, e) is None,
    ensures
        equation_holds(g1, g2, h, g2_mul(g2, x), m, signature_point(g1, h, x, m, e), e),
        !g2_is_identity(g2) ==> verify_outcome(g1, g2, h, g2_mul(g2, x), m, signature_point(g1, h, x, m, e), e)
            == Ok::<bool, Error>(true),
{
    let s = fr_sum(x, e);
    let b = commitment(g1, h, m);
    lemma_fr_basics(x, e);
    lemma_g1_lincomb_valid(g1, h, m, m.len());
    // pk + g2 * e = g2 * (x + e)
    law_g2_mul_add(g2, x, e);
    law_g2_mul(g2, s);
    // e(B * s^-1, Q) = e(B, Q * s^-1), and (g2 * s) * s^-1 = g2
    law_pairing_scalar(b, g2_mul(g2, s), fr_inv(s));
    lemma_g2_inverse_scaling(g2, s);
    law_g2_identity(g2, x);
}

/// Whether a key of the list is the identity.
pub open spec fn lists_identity(ipks: Seq<PublicKey>) -> bool {
    exists|i: int| 0 <= i < ipks.len() && g2_is_identity((#[trigger] ipks[i]).0@)
}

/// Whether no key of the list is the identity.
pub fn check_keys(ipks: &Vec<PublicKey>) -> (r: bool)
    ensures
        r == !lists_identity(ipks@),
{
    let mut i: usize = 0;
    while i < ipks.len()
        invariant
            i <= ipks.len(),
            forall|j: int| 0 <= j < i ==> !g2_is_identity((#[trigger] ipks@[j]).0@),
        decreases ipks.len() - i,
    {
        if ipks[i].0.is_identity() {
            return false;
        }
        i += 1;
    }
    true
}

} // verus!
