//! Proof of knowledge of a BBS signature with selective disclosure, for a
//! verifier who knows the issuer.

use vstd::prelude::*;
use vstd::string::*;

use crate::algebra::{
    all_g1, group_laws, is_g1, is_g2, law_g1_identity, law_g1_mul, law_g2_identity, law_inverse,
    law_pairing_scalar, lemma_fr_basics, lemma_fr_distributes, lemma_fr_prod_assoc, lemma_fr_small,
    lemma_fr_units, lemma_g1_lincomb_valid, lemma_values_selected,
};
use crate::bbs::SecretKey;
use crate::error::{Error, ProofCheck};
use crate::group::{g1_is_identity, g1_mul, g2_is_identity, g2_mul, pair, pairing, G1};
use crate::hashing::{hash_to_fr, hash_to_fr_value};
use crate::issuer;
use crate::linear::{
    disclosed, g1_views, hidden, hidden_indices, lemma_disclosed, lemma_disclosed_count, lemma_hidden_members, masked_minus,
    random_scalars, select_scalars, selected, sorted_indices, values,
};
use crate::scalar::{fr_diff, fr_inv, fr_mul, fr_prod, fr_sum, modulus, Scalar};
use crate::sigma::{
    b_bar_point, check_disclosure, check_inputs, commit, d_point, disclosure_error, head, head_bytes,
    input_error,
    lemma_first_commitment_recomputed, lemma_randomized_credential, lemma_second_commitment_recomputed,
    recompute_u1, recompute_u2, respond, u1_check, u1_point, u2_check, u2_point, Commitments, Nonces,
};
use crate::transcript::encodings;

verus! {

/// The tag of the proof challenge.
pub const PROOF_DST: &'static str = "MY_CHALLENGE_GENERATOR_DST_V1";

/// The public part of a proof.
#[derive(Clone, Debug)]
pub struct PiKP {
    pub a_bar: G1,
    pub b_bar: G1,
    pub d: G1,
    pub open: Vec<usize>,
    pub len: usize,
    pub message_list: Vec<Scalar>,
}

/// The challenge and the responses of a proof.
#[derive(Clone, Debug)]
pub struct PiZKP {
    pub s: Scalar,
    pub t: Scalar,
    pub z: Scalar,
    pub v: Vec<Scalar>,
    pub c: Scalar,
}

/// The challenge that belongs to the public part of a proof and the two
/// commitments.
pub open spec fn challenge_value(h: Seq<Seq<u8>>, kp: PiKP, u1: Seq<u8>, u2: Seq<u8>) -> nat {
    hash_to_fr_value(
        head_bytes(
            h,
            kp.len as nat,
            kp.open@,
            encodings(kp.message_list@),
            kp.a_bar@,
            kp.b_bar@,
            kp.d@,
            u1,
            u2,
        ),
        PROOF_DST.spec_bytes(),
    )
}

/// Why no proof is made with the given random scalars, if none is.
pub open spec fn prove_error(n: nat, limit: nat, reveal: Seq<usize>, nonces: Nonces) -> Option<Error> {
    if input_error(n, limit, reveal) is Some || nonces.delta@.len() != hidden(reveal, n).len() {
        Some(Error::InvalidParameter)
    } else if nonces.r1@ == 0 || nonces.r2@ == 0 {
        Some(Error::RandomnessFailure)
    } else {
        None
    }
}

/// Whether `(kp, zkp)` is the proof that the random scalars give.
pub open spec fn proves(
    pp: issuer::PublicParameters,
    cred: issuer::Signature,
    m: Seq<Scalar>,
    reveal: Seq<usize>,
    nonces: Nonces,
    kp: PiKP,
    zkp: PiZKP,
) -> bool {
    let n = m.len();
    let reveal = disclosed(reveal, n);
    let h = g1_views(pp.h_vec@);
    let hide = hidden(reveal, n);
    let c = zkp.c@;
    &&& kp.len == n
    &&& kp.open@ == reveal
    &&& kp.message_list@ == selected(m, reveal)
    &&& kp.d@ == d_point(pp.g1@, h, values(m), fr_inv(nonces.r2@))
    &&& kp.a_bar@ == g1_mul(cred.a@, fr_prod(nonces.r1@, fr_inv(nonces.r2@)))
    &&& kp.b_bar@ == b_bar_point(kp.d@, kp.a_bar@, nonces.r1@, cred.e@)
    &&& c == challenge_value(
        h,
        kp,
        u1_point(kp.d@, kp.a_bar@, nonces.alpha@, nonces.beta@),
        u2_point(kp.d@, h, hide, nonces.gamma@, values(nonces.delta@)),
    )
    &&& zkp.s@ == fr_sum(nonces.alpha@, fr_prod(c, nonces.r1@))
    &&& zkp.t@ == fr_diff(nonces.beta@, fr_prod(c, cred.e@))
    &&& zkp.z@ == fr_sum(nonces.gamma@, fr_prod(c, nonces.r2@))
    &&& values(zkp.v@) == masked_minus(values(nonces.delta@), c, values(selected(m, hide)))
}

/// Why the shape of a proof is refused, if it is.
pub open spec fn shape_error(limit: nat, kp: PiKP, zkp: PiZKP) -> Option<Error> {
    if disclosure_error(kp.len as nat, limit, kp.open@) is Some || kp.message_list@.len() != kp.open@.len()
        || zkp.v@.len() != hidden(kp.open@, kp.len as nat).len() || g1_is_identity(kp.a_bar@) {
        Some(Error::InvalidParameter)
    } else {
        None
    }
}

/// The challenge that a verifier recomputes from a proof.
pub open spec fn recomputed_challenge(pp: issuer::PublicParameters, kp: PiKP, zkp: PiZKP) -> nat {
    let h = g1_views(pp.h_vec@);
    challenge_value(
        h,
        kp,
        u1_check(kp.d@, kp.a_bar@, kp.b_bar@, zkp.s@, zkp.t@, zkp.c@),
        u2_check(
            pp.g1@,
            h,
            kp.d@,
            kp.open@,
            values(kp.message_list@),
            hidden(kp.open@, kp.len as nat),
            zkp.z@,
            values(zkp.v@),
            zkp.c@,
        ),
    )
}

/// What the check of a proof returns.
pub open spec fn verify_outcome(pp: issuer::PublicParameters, pk: issuer::PublicKey, kp: PiKP, zkp: PiZKP) -> Result<
    bool,
    Error,
> {
    if shape_error(pp.h_vec@.len(), kp, zkp) is Some {
        Err(Error::InvalidParameter)
    } else if g2_is_identity(pk.0@) {
        Err(Error::InvalidKey)
    } else if zkp.c@ != recomputed_challenge(pp, kp, zkp) {
        Err(Error::ProofVerificationFailed(ProofCheck::Challenge))
    } else if pairing(kp.a_bar@, pk.0@) != pairing(kp.b_bar@, pp.g2@) {
        Err(Error::ProofVerificationFailed(ProofCheck::PairingBinding))
    } else {
        Ok(true)
    }
}

/// The challenge that belongs to the public part of a proof and the two
/// commitments.
pub(crate) fn challenge(h: &Vec<G1>, kp: &PiKP, u1: &G1, u2: &G1) -> (r: Scalar)
    requires
        kp.len <= h.len(),
    ensures
        r@ == challenge_value(g1_views(h@), *kp, u1@, u2@),
{
    let cm = Commitments { a_bar: kp.a_bar, b_bar: kp.b_bar, d: kp.d, u1: *u1, u2: *u2 };
    let buf = head(h, kp.len, &kp.open, &kp.message_list, &cm);
    hash_to_fr(buf.as_slice(), PROOF_DST.as_bytes())
}

/// The proof that the given random scalars give, with the disclosed
/// indices sorted. The indices may come in any order; none may come twice.
pub fn prove_with(
    pp: &issuer::PublicParameters,
    cred: &issuer::Signature,
    message_list: &Vec<Scalar>,
    reveal_index: &Vec<usize>,
    nonces: &Nonces,
) -> (r: Result<(PiKP, PiZKP), Error>)
    ensures
        match r {
            Ok(proof) => prove_error(message_list@.len(), pp.h_vec@.len(), reveal_index@, *nonces) is None
                && proves(*pp, *cred, message_list@, reveal_index@, *nonces, proof.0, proof.1),
            Err(e) => prove_error(message_list@.len(), pp.h_vec@.len(), reveal_index@, *nonces) == Some(e),
        },
        r matches Ok(proof) ==> proof.0.open@.len() == reveal_index@.len() && proof.1.v@.len() + reveal_index@.len()
            == message_list@.len(),
{
    let n = message_list.len();
    if !check_inputs(n, pp.h_vec.len(), reveal_index) {
        return Err(Error::InvalidParameter);
    }
    let sorted = sorted_indices(reveal_index, n);
    let hide = hidden_indices(&sorted, n);
    proof {
        lemma_disclosed(reveal_index@, n as nat);
        lemma_disclosed_count(reveal_index@, n as nat);
    }
    if nonces.delta.len() != hide.len() {
        return Err(Error::InvalidParameter);
    }
    if nonces.r1.is_zero() {
        return Err(Error::RandomnessFailure);
    }
    let r2_inv = match nonces.r2.invert() {
        Some(i) => i,
        None => {
            return Err(Error::RandomnessFailure);
        },
    };
    let shown = select_scalars(message_list, &sorted);
    let hidden_m = select_scalars(message_list, &hide);
    let factor = fr_mul(&nonces.r1, &r2_inv);
    let cm = commit(&pp.g1, &pp.h_vec, &cred.a, &factor, &cred.e, message_list, &hide, &r2_inv, nonces);
    let kp = PiKP {
        a_bar: cm.a_bar,
        b_bar: cm.b_bar,
        d: cm.d,
        open: sorted,
        len: n,
        message_list: shown,
    };
    let c = challenge(&pp.h_vec, &kp, &cm.u1, &cm.u2);
    let rs = respond(&c, nonces, &cred.e, &hidden_m);
    let zkp = PiZKP { s: rs.s, t: rs.t, z: rs.z, v: rs.v, c };
    proof {
        assert(values(zkp.v@).len() == zkp.v@.len());
        assert(values(nonces.delta@).len() == nonces.delta@.len());
    }
    Ok((kp, zkp))
}

/// A proof for the credential that discloses the attributes at the given
/// indices, in any order, under fresh random scalars.
pub fn prove(
    pp: &issuer::PublicParameters,
    cred: &issuer::Signature,
    message_list: &Vec<Scalar>,
    reveal_index: &Vec<usize>,
) -> (r: Result<(PiKP, PiZKP), Error>)
    ensures
        match r {
            Ok(proof) => exists|nonces: Nonces|
                prove_error(message_list@.len(), pp.h_vec@.len(), reveal_index@, nonces) is None && #[trigger] proves(
                    *pp,
                    *cred,
                    message_list@,
                    reveal_index@,
                    nonces,
                    proof.0,
                    proof.1,
                ),
            Err(e) => if input_error(message_list@.len(), pp.h_vec@.len(), reveal_index@) is Some {
                e == Error::InvalidParameter
            } else {
                e == Error::RandomnessFailure
            },
        },
        r matches Ok(proof) ==> proof.0.open@.len() == reveal_index@.len() && proof.1.v@.len() + reveal_index@.len()
            == message_list@.len(),
{
    let n = message_list.len();
    if !check_inputs(n, pp.h_vec.len(), reveal_index) {
        return Err(Error::InvalidParameter);
    }
    let hide = hidden_indices(reveal_index, n);
    let r1 = match Scalar::random_nonzero() {
        Ok(s) => s,
        Err(e) => {
            return Err(e);
        },
    };
    let r2 = match Scalar::random_nonzero() {
        Ok(s) => s,
        Err(e) => {
            return Err(e);
        },
    };
    let nonces = Nonces {
        r1,
        r2,
        alpha: Scalar::random(),
        beta: Scalar::random(),
        gamma: Scalar::random(),
        delta: random_scalars(hide.len()),
    };
    prove_with(pp, cred, message_list, reveal_index, &nonces)
}

/// Checks a proof under the issuer's public key.
pub fn verify_proof(pp: &issuer::PublicParameters, pk: &issuer::PublicKey, pikp: &PiKP, pizkp: &PiZKP) -> (r:
    Result<bool, Error>)
    ensures
        r == verify_outcome(*pp, *pk, *pikp, *pizkp),
{
    let n = pikp.len;
    if !check_disclosure(n, pp.h_vec.len(), &pikp.open) {
        return Err(Error::InvalidParameter);
    }
    if pikp.message_list.len() != pikp.open.len() {
        return Err(Error::InvalidParameter);
    }
    let hide = hidden_indices(&pikp.open, n);
    if pizkp.v.len() != hide.len() {
        return Err(Error::InvalidParameter);
    }
    if pikp.a_bar.is_identity() {
        return Err(Error::InvalidParameter);
    }
    if pk.0.is_identity() {
        return Err(Error::InvalidKey);
    }
    let u1 = recompute_u1(&pikp.d, &pikp.a_bar, &pikp.b_bar, &pizkp.s, &pizkp.t, &pizkp.c);
    let u2 = recompute_u2(
        &pp.g1,
        &pp.h_vec,
        &pikp.d,
        &pikp.open,
        &pikp.message_list,
        &hide,
        &pizkp.z,
        &pizkp.v,
        &pizkp.c,
    );
    let c = challenge(&pp.h_vec, pikp, &u1, &u2);
    if !c.same(&pizkp.c) {
        return Err(Error::ProofVerificationFailed(ProofCheck::Challenge));
    }
    let left = pair(&pikp.a_bar, &pk.0);
    let right = pair(&pikp.b_bar, &pp.g2);
    if !left.same(&right) {
        return Err(Error::ProofVerificationFailed(ProofCheck::PairingBinding));
    }
    Ok(true)
}

/// Whether the generators of the parameters are points, the second one not
/// the identity, and no more than a machine can count.
pub open spec fn parameters_valid(pp: issuer::PublicParameters) -> bool {
    &&& is_g1(pp.g1@)
    &&& is_g2(pp.g2@)
    &&& !g2_is_identity(pp.g2@)
    &&& all_g1(g1_views(pp.h_vec@))
    &&& pp.h_vec@.len() <= usize::MAX
}

/// Whether the random scalars are below the modulus.
pub open spec fn nonces_valid(nonces: Nonces) -> bool {
    &&& nonces.r1@ < modulus()
    &&& nonces.r2@ < modulus()
    &&& nonces.alpha@ < modulus()
    &&& nonces.beta@ < modulus()
    &&& nonces.gamma@ < modulus()
}

/// Under the laws of a bilinear group, the proof that an honest holder of a
/// signature makes is accepted under the signer's public key.
pub proof fn lemma_honest_proof_verifies(
    pp: issuer::PublicParameters,
    sk: SecretKey,
    pk: issuer::PublicKey,
    cred: issuer::Signature,
    m: Seq<Scalar>,
    reveal: Seq<usize>,
    nonces: Nonces,
    kp: PiKP,
    zkp: PiZKP,
)
    requires
        group_laws(),
        parameters_valid(pp),
        nonces_valid(nonces),
        sk.0@ < modulus(),
        cred.e@ < modulus(),
        zkp.c@ < modulus(),
        pk.0@ == g2_mul(pp.g2@, sk.0@),
        issuer::signs(pp, sk, m, cred),
        prove_error(m.len(), pp.h_vec@.len(), reveal, nonces) is None,
        proves(pp, cred, m, reveal, nonces, kp, zkp),
    ensures
        verify_outcome(pp, pk, kp, zkp) == Ok::<bool, Error>(true),
{
    let g1 = pp.g1@;
    let g2 = pp.g2@;
    let h = g1_views(pp.h_vec@);
    let n = m.len();
    lemma_disclosed(reveal, n);
    let reveal = disclosed(reveal, n);
    let hide = hidden(reveal, n);
    let x = sk.0@;
    let e = cred.e@;
    let c = zkp.c@;
    let s = fr_sum(x, e);
    let r2_inv = fr_inv(nonces.r2@);
    let factor = fr_prod(nonces.r1@, r2_inv);
    let b = issuer::commitment(g1, h, values(m));
    assert(values(m).len() == n);
    assert(h.len() == pp.h_vec@.len());
    lemma_fr_basics(x, e);
    lemma_g1_lincomb_valid(g1, h, values(m), n);
    law_g1_mul(b, fr_inv(s));
    law_g1_mul(b, r2_inv);
    law_g1_mul(cred.a@, factor);

    // the shape of the proof
    lemma_hidden_members(reveal, n);
    assert forall|k: int| 0 <= k < hide.len() implies hide[k] < n by {
        assert(hide.contains(hide[k]));
    }
    lemma_values_selected(m, reveal);
    lemma_values_selected(m, hide);
    assert(values(zkp.v@).len() == zkp.v@.len());
    assert(values(nonces.delta@).len() == nonces.delta@.len());
    lemma_fr_units(nonces.r2@, nonces.r2@);
    lemma_fr_units(nonces.r1@, r2_inv);
    law_g1_identity(cred.a@, factor);
    law_g2_identity(g2, x);

    // the challenge
    lemma_first_commitment_recomputed(kp.d@, kp.a_bar@, nonces.r1@, e, nonces.alpha@, nonces.beta@, c);
    lemma_second_commitment_recomputed(
        g1,
        h,
        values(m),
        reveal,
        nonces.r2@,
        nonces.gamma@,
        values(nonces.delta@),
        c,
    );

    // the pairing
    let k = fr_prod(fr_inv(s), factor);
    assert(fr_sum(fr_prod(k, x), fr_prod(k, e)) == fr_prod(r2_inv, nonces.r1@)) by {
        law_inverse(s);
        lemma_fr_distributes(k, x, e);
        lemma_fr_basics(fr_inv(s), factor);
        lemma_fr_prod_assoc(factor, fr_inv(s), s);
        lemma_fr_basics(nonces.r1@, r2_inv);
        lemma_fr_small(factor);
    }
    lemma_randomized_credential(b, fr_inv(s), factor, r2_inv, nonces.r1@, e, x);
    law_pairing_scalar(kp.a_bar@, g2, x);
}

/// Whether two proofs hold the same elements, each list in the same order.
pub open spec fn same_proof(first: (PiKP, PiZKP), second: (PiKP, PiZKP)) -> bool {
    let (kp, zkp) = first;
    let (other_kp, other_zkp) = second;
    &&& kp.a_bar == other_kp.a_bar
    &&& kp.b_bar == other_kp.b_bar
    &&& kp.d == other_kp.d
    &&& kp.open@ == other_kp.open@
    &&& kp.len == other_kp.len
    &&& kp.message_list@ == other_kp.message_list@
    &&& zkp.s == other_zkp.s
    &&& zkp.t == other_zkp.t
    &&& zkp.z == other_zkp.z
    &&& zkp.v@ == other_zkp.v@
    &&& zkp.c == other_zkp.c
}

/// The random scalars determine the proof: two proofs that the same
/// scalars give for the same request hold the same elements.
pub proof fn lemma_proof_determined(
    pp: issuer::PublicParameters,
    cred: issuer::Signature,
    m: Seq<Scalar>,
    reveal: Seq<usize>,
    nonces: Nonces,
    first: (PiKP, PiZKP),
    second: (PiKP, PiZKP),
)
    requires
        proves(pp, cred, m, reveal, nonces, first.0, first.1),
        proves(pp, cred, m, reveal, nonces, second.0, second.1),
    ensures
        same_proof(first, second),
{
    let (kp, zkp) = first;
    let (other_kp, other_zkp) = second;
    crate::group::lemma_g1_determined(kp.a_bar, other_kp.a_bar);
    crate::group::lemma_g1_determined(kp.b_bar, other_kp.b_bar);
    crate::group::lemma_g1_determined(kp.d, other_kp.d);
    crate::linear::lemma_scalars_determined(kp.message_list@, other_kp.message_list@);
    crate::scalar::lemma_scalar_determined(zkp.c, other_zkp.c);
    crate::scalar::lemma_scalar_determined(zkp.s, other_zkp.s);
    crate::scalar::lemma_scalar_determined(zkp.t, other_zkp.t);
    crate::scalar::lemma_scalar_determined(zkp.z, other_zkp.z);
    crate::linear::lemma_scalars_determined(zkp.v@, other_zkp.v@);
}

} // verus!
