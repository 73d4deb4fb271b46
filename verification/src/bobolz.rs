//! Issuer-hiding presentation with Groth signatures on both sides.
//!
//! The issuer signs the point `sum h[i] * m[i]` that commits to the
//! holder's attributes with a Groth signature in the first orientation. The
//! verifier signs every issuer key it trusts with a Groth signature in the
//! second orientation. A presentation randomizes and blinds both
//! signatures and the issuer key, and proves knowledge of the blinding
//! scalars and of the hidden attributes with commitments in the target
//! group. The presentation carries the three commitments: the first two
//! bind the credential to the blinded issuer key, the third binds that key
//! to an entry of the verifier's list, so a verifier can say which of them
//! a proof fails.

use vstd::prelude::*;
use vstd::string::*;

use crate::algebra::{
    all_g1, group_laws, is_g1, is_g2, law_g1_assoc, law_g1_identity, lemma_g2_inverse_scaling,
    lemma_values_selected, law_gt_sum, lemma_fr_basics, lemma_g1_lincomb_at_add,
    lemma_g1_lincomb_at_from, lemma_g1_lincomb_at_prefix, lemma_g1_lincomb_at_valid, lemma_g1_lincomb_scale,
    lemma_g1_lincomb_valid, lemma_g1_partition, law_g1_add_mul, law_g1_mul, law_g1_mul_add, law_g1_mul_mul, law_g1_sum,
    law_g2_add_mul, law_g2_mul, law_g2_mul_add, law_g2_mul_mul, law_g2_sum, law_pairing_left,
    law_pairing_right, law_pairing_scalar, lemma_fr_blinding_cancels, lemma_fr_inverse_absorbed,
    lemma_fr_opp_sum, lemma_fr_prod_assoc, lemma_fr_prod_opp, lemma_gt_two_pairs_cancel,
};
use crate::error::{Error, ProofCheck};
use crate::group::{
    g1_is_identity, g1_mul, g1_scale, g1_sum, g2_is_identity, g2_mul, g2_scale, g2_sum, gt_add, gt_sum, pair,
    pairing, Gt, G1, G2,
};
use crate::groth;
use crate::groth::SecretKey;
use crate::groth1;
use crate::groth2;
use crate::hashing::{hash_to_fr, hash_to_fr_value, hash_to_g1, hash_to_g2};
use crate::linear::{
    disclosed, g1_combine, g1_combine_at, g1_lincomb, g1_lincomb_at, g1_views, g2_views, hidden,
    hidden_indices, lemma_disclosed, lemma_disclosed_count, sorted_indices,
    increasing_below, lemma_hidden_members, masked_plus,
    negate_all, negated, random_scalars, respond_plus, scale_all, scaled, select_scalars, selected, values,
};
use crate::scalar::{fr_add, fr_inv, fr_mul, fr_neg, fr_opp, fr_prod, fr_sum, modulus, Scalar};
use crate::setup::{
    check_distinct_g1, check_distinct_g2, decode_g1_hex, decode_g2_hex, distinct_g1, distinct_g2, g1_from_hex,
    g2_from_hex, generators, joined, message_generators, G1_GENERATOR_HEX, G2_GENERATOR_HEX, MAX_ATTRIBUTES,
};
use crate::sigma::{check_disclosure, check_inputs, disclosure_error, input_error};
use crate::transcript::{
    absorb_g1, absorb_g1_list, absorb_g2, absorb_gt, absorb_index_list, absorb_scalar_list, concat, encodings,
    index_list_bytes,
};

verus! {

/// The tag of the presentation challenge.
pub const PRESENTATION_DST: &'static str = "CHALLENGE_GENERATOR_DST_Bobolz_Issuer_Hiding_V1";

/// The generators of both signatures and the message generators.
#[derive(Clone, Debug)]
pub struct PublicParameters {
    pub g1: G1,
    pub g2: G2,
    pub y1: G1,
    pub y2: G2,
    pub h: Vec<G1>,
}

/// The public part of a presentation: the blinded credential, issuer key
/// and list entry, the three commitments, and what is disclosed.
#[derive(Clone, Debug)]
pub struct PiKP {
    pub blind_cred: groth1::Signature,
    pub blind_ipk: groth1::PublicKey,
    pub blind_issuer_sig: groth2::Signature,
    pub u_1: Gt,
    pub u_2: Gt,
    pub u_3: Gt,
    pub open: Vec<usize>,
    pub len: usize,
    pub message_list: Vec<Scalar>,
}

/// The challenge and the responses of a presentation.
#[derive(Clone, Debug)]
pub struct PiZKP {
    pub c: Scalar,
    pub z1: Scalar,
    pub z2: Scalar,
    pub z3: Scalar,
    pub z4: Scalar,
    pub z5: Vec<Scalar>,
}

/// An issuer key together with the verifier's signature on it.
#[derive(Clone, Copy, Debug)]
pub struct TrustedIssuerCredential {
    pub ipk: groth1::PublicKey,
    pub cred: groth2::Signature,
}

/// The random scalars of one presentation.
#[derive(Clone, Debug)]
pub struct Blinding {
    pub rho1: Scalar,
    pub rho2: Scalar,
    pub alpha: Scalar,
    pub beta: Scalar,
    pub gamma: Scalar,
    pub delta: Scalar,
    pub r1: Scalar,
    pub r2: Scalar,
    pub r3: Scalar,
    pub r4: Scalar,
    pub r5: Vec<Scalar>,
}

/// The parameters of the issuer's signature.
pub open spec fn issuer_side(pp: PublicParameters) -> groth1::PublicParameters {
    groth1::PublicParameters { g1: pp.g1, g2: pp.g2, y1: pp.y1 }
}

/// The parameters of the verifier's signature.
pub open spec fn verifier_side(pp: PublicParameters) -> groth2::PublicParameters {
    groth2::PublicParameters { g1: pp.g1, g2: pp.g2, y2: pp.y2 }
}

/// Whether the parameters are the ones that `par_gen` derives.
pub open spec fn derived(pp: PublicParameters) -> bool {
    &&& g1_from_hex(G1_GENERATOR_HEX) == Some(pp.g1@)
    &&& g2_from_hex(G2_GENERATOR_HEX) == Some(pp.g2@)
    &&& pp.y1@ == groth::y1_point()
    &&& pp.y2@ == groth::y2_point()
    &&& g1_views(pp.h@) == generators(MAX_ATTRIBUTES as nat)
}

/// The identity of the first group, as the generator times zero.
pub open spec fn zero_point(pp: PublicParameters) -> Seq<u8> {
    g1_mul(pp.g1@, 0)
}

/// The point `sum h[i] * m[i]` that the issuer signs.
pub open spec fn attribute_point(pp: PublicParameters, m: Seq<nat>) -> Seq<u8> {
    g1_lincomb(zero_point(pp), g1_views(pp.h@), m, m.len())
}

/// Why a list of attributes is refused, if it is.
pub open spec fn attributes_error(pp: PublicParameters, n: nat) -> Option<Error> {
    if n == 0 || n > pp.h@.len() {
        Some(Error::InvalidParameter)
    } else {
        None
    }
}

/// Whether `creds` pairs every key of `ipks` with a signature of the
/// verifier on it.
pub open spec fn listed(
    pp: PublicParameters,
    sk: SecretKey,
    ipks: Seq<groth1::PublicKey>,
    creds: Seq<TrustedIssuerCredential>,
) -> bool {
    &&& creds.len() == ipks.len()
    &&& forall|i: int|
        #![trigger creds[i]]
        0 <= i < ipks.len() ==> creds[i].ipk == ipks[i] && groth2::signed(
            verifier_side(pp),
            sk.0@,
            ipks[i].0@,
            creds[i].cred,
        )
}

/// What the check of one list entry returns.
pub open spec fn entry_outcome(pp: PublicParameters, vpk: Seq<u8>, entry: TrustedIssuerCredential) -> Result<
    bool,
    Error,
> {
    if g2_is_identity(entry.ipk.0@) {
        Err(Error::InvalidKey)
    } else {
        groth2::verify_outcome(verifier_side(pp), vpk, entry.cred, entry.ipk.0@)
    }
}

/// The error of the first of the first `n` entries that is rejected.
pub open spec fn first_rejection(pp: PublicParameters, vpk: Seq<u8>, list: Seq<TrustedIssuerCredential>, n: nat) -> Option<
    Error,
>
    decreases n,
{
    if n == 0 {
        None
    } else {
        match first_rejection(pp, vpk, list, (n - 1) as nat) {
            Some(e) => Some(e),
            None => match entry_outcome(pp, vpk, list[n - 1]) {
                Ok(_) => None,
                Err(e) => Some(e),
            },
        }
    }
}

/// What the check of a trust list returns.
pub open spec fn list_outcome(pp: PublicParameters, vpk: groth2::PublicKey, list: Seq<TrustedIssuerCredential>) -> Result<
    bool,
    Error,
> {
    if list.len() == 0 {
        Err(Error::InvalidParameter)
    } else {
        match first_rejection(pp, vpk.0@, list, list.len()) {
            Some(e) => Err(e),
            None => Ok(true),
        }
    }
}

/// The index of the last of the first `n` entries that carries the key, or
/// zero where none does.
pub open spec fn chosen(list: Seq<TrustedIssuerCredential>, ipk: Seq<u8>, n: nat) -> int
    decreases n,
{
    if n == 0 {
        0
    } else if list[n - 1].ipk.0@ == ipk {
        n - 1
    } else {
        chosen(list, ipk, (n - 1) as nat)
    }
}

/// The first `n` entries of a trust list as bytes: key, then the three
/// points of the signature.
pub open spec fn policy_bytes(list: Seq<TrustedIssuerCredential>, n: nat) -> Seq<u8>
    decreases n,
{
    if n == 0 {
        Seq::empty()
    } else {
        policy_bytes(list, (n - 1) as nat) + list[n - 1].ipk.0@ + list[n - 1].cred.r1@ + list[n - 1].cred.s2@
            + list[n - 1].cred.t2@
    }
}

/// The bytes that the challenge of a presentation is hashed from: the
/// blinded values, the first `len` generators, the disclosed indices and
/// attributes, the three commitments, the trust list.
pub open spec fn challenge_input(
    pp: PublicParameters,
    kp: PiKP,
    u1: Seq<u8>,
    u2: Seq<u8>,
    u3: Seq<u8>,
    list: Seq<TrustedIssuerCredential>,
) -> Seq<u8> {
    kp.blind_cred.r2@ + kp.blind_cred.s1@ + kp.blind_cred.t1@ + kp.blind_ipk.0@ + kp.blind_issuer_sig.r1@
        + kp.blind_issuer_sig.s2@ + kp.blind_issuer_sig.t2@ + concat(g1_views(pp.h@), kp.len as nat)
        + index_list_bytes(kp.open@, kp.open@.len()) + concat(
        encodings(kp.message_list@),
        kp.message_list@.len(),
    ) + u1 + u2 + u3 + policy_bytes(list, list.len())
}

/// The challenge that belongs to the public part of a presentation and the
/// three commitments.
pub open spec fn challenge_value(
    pp: PublicParameters,
    kp: PiKP,
    u1: Seq<u8>,
    u2: Seq<u8>,
    u3: Seq<u8>,
    list: Seq<TrustedIssuerCredential>,
) -> nat {
    hash_to_fr_value(challenge_input(pp, kp, u1, u2, u3, list), PRESENTATION_DST.spec_bytes())
}

/// Why a request for a presentation is refused, if it is.
pub open spec fn request_error(pp: PublicParameters, n: nat, reveal: Seq<usize>, listed: nat) -> Option<Error> {
    if input_error(n, pp.h@.len(), reveal) is Some || listed == 0 {
        Some(Error::InvalidParameter)
    } else {
        None
    }
}

/// Why no presentation is made with the given random scalars, if none is.
pub open spec fn present_error(pp: PublicParameters, n: nat, reveal: Seq<usize>, listed: nat, b: Blinding) -> Option<
    Error,
> {
    if request_error(pp, n, reveal, listed) is Some || b.r5@.len() != hidden(reveal, n).len() {
        Some(Error::InvalidParameter)
    } else if b.rho1@ == 0 || b.rho2@ == 0 || b.alpha@ == 0 || b.beta@ == 0 || b.gamma@ == 0 || b.delta@ == 0 {
        Some(Error::RandomnessFailure)
    } else {
        None
    }
}

/// The point `blind_ipk * -z` that all three commitments share.
pub open spec fn key_term(kp: PiKP, z: nat) -> Seq<u8> {
    g2_mul(kp.blind_ipk.0@, fr_opp(z))
}

/// The first commitment of a holder: `e(S1 * r1, R2) + e(g1, K)`.
pub open spec fn u1_value(pp: PublicParameters, kp: PiKP, r1: nat, r3: nat) -> Seq<u8> {
    gt_sum(pairing(g1_mul(kp.blind_cred.s1@, r1), kp.blind_cred.r2@), pairing(pp.g1@, key_term(kp, r3)))
}

/// The second commitment of a holder: `e(T1 * r2, R2) + e(y1, K) +
/// e(-sum h[j] * r5[j], g2)` over the hidden indices.
pub open spec fn u2_value(pp: PublicParameters, kp: PiKP, hide: Seq<usize>, r2: nat, r3: nat, r5: Seq<nat>) -> Seq<
    u8,
> {
    gt_sum(
        gt_sum(pairing(g1_mul(kp.blind_cred.t1@, r2), kp.blind_cred.r2@), pairing(pp.y1@, key_term(kp, r3))),
        pairing(g1_lincomb_at(zero_point(pp), g1_views(pp.h@), hide, negated(r5), hide.len()), pp.g2@),
    )
}

/// The third commitment of a holder: `e(R1, T2 * r4) + e(g1, K)`.
pub open spec fn u3_value(pp: PublicParameters, kp: PiKP, r3: nat, r4: nat) -> Seq<u8> {
    gt_sum(
        pairing(kp.blind_issuer_sig.r1@, g2_mul(kp.blind_issuer_sig.t2@, r4)),
        pairing(pp.g1@, key_term(kp, r3)),
    )
}

/// Whether `(kp, zkp)` is the presentation that the random scalars give.
pub open spec fn presents(
    pp: PublicParameters,
    cred: groth1::Signature,
    ipk: groth1::PublicKey,
    m: Seq<Scalar>,
    reveal: Seq<usize>,
    list: Seq<TrustedIssuerCredential>,
    b: Blinding,
    kp: PiKP,
    zkp: PiZKP,
) -> bool {
    let n = m.len();
    let reveal = disclosed(reveal, n);
    let hide = hidden(reveal, n);
    let entry = list[chosen(list, ipk.0@, list.len())];
    let c = zkp.c@;
    &&& kp.len == n
    &&& kp.open@ == reveal
    &&& kp.message_list@ == selected(m, reveal)
    &&& kp.blind_cred.r2@ == g2_mul(cred.r2@, b.rho1@)
    &&& kp.blind_cred.s1@ == g1_mul(g1_mul(cred.s1@, fr_inv(b.rho1@)), fr_inv(b.alpha@))
    &&& kp.blind_cred.t1@ == g1_mul(g1_mul(cred.t1@, fr_inv(b.rho1@)), fr_inv(b.beta@))
    &&& kp.blind_ipk.0@ == g2_mul(ipk.0@, fr_inv(b.gamma@))
    &&& kp.blind_issuer_sig.r1@ == g1_mul(entry.cred.r1@, b.rho2@)
    &&& kp.blind_issuer_sig.s2@ == g2_mul(entry.cred.s2@, fr_inv(b.rho2@))
    &&& kp.blind_issuer_sig.t2@ == g2_mul(g2_mul(entry.cred.t2@, fr_inv(b.rho2@)), fr_inv(b.delta@))
    &&& kp.u_1@ == u1_value(pp, kp, b.r1@, b.r3@)
    &&& kp.u_2@ == u2_value(pp, kp, hide, b.r2@, b.r3@, values(b.r5@))
    &&& kp.u_3@ == u3_value(pp, kp, b.r3@, b.r4@)
    &&& c == challenge_value(pp, kp, kp.u_1@, kp.u_2@, kp.u_3@, list)
    &&& zkp.z1@ == fr_sum(b.r1@, fr_prod(c, b.alpha@))
    &&& zkp.z2@ == fr_sum(b.r2@, fr_prod(c, b.beta@))
    &&& zkp.z3@ == fr_sum(b.r3@, fr_prod(c, b.gamma@))
    &&& zkp.z4@ == fr_sum(b.r4@, fr_prod(c, b.delta@))
    &&& values(zkp.z5@) == masked_plus(values(b.r5@), c, values(selected(m, hide)))
}

/// `e(S1 * z1, R2) + e(g1, K) + e(y1, g2 * -c)`, which an honest proof
/// makes equal to the first commitment.
pub open spec fn k1_value(pp: PublicParameters, kp: PiKP, zkp: PiZKP) -> Seq<u8> {
    gt_sum(
        gt_sum(
            pairing(g1_mul(kp.blind_cred.s1@, zkp.z1@), kp.blind_cred.r2@),
            pairing(pp.g1@, key_term(kp, zkp.z3@)),
        ),
        pairing(pp.y1@, g2_mul(pp.g2@, fr_opp(zkp.c@))),
    )
}

/// `e(T1 * z2, R2) + e(y1, K) + e(-sum h[i] * m[i] * c - sum h[j] * z5[j],
/// g2)`, which an honest proof makes equal to the second commitment.
pub open spec fn k2_value(pp: PublicParameters, kp: PiKP, zkp: PiZKP) -> Seq<u8> {
    let h = g1_views(pp.h@);
    let hide = hidden(kp.open@, kp.len as nat);
    gt_sum(
        gt_sum(
            pairing(g1_mul(kp.blind_cred.t1@, zkp.z2@), kp.blind_cred.r2@),
            pairing(pp.y1@, key_term(kp, zkp.z3@)),
        ),
        pairing(
            g1_lincomb_at(
                g1_lincomb_at(
                    zero_point(pp),
                    h,
                    kp.open@,
                    scaled(values(kp.message_list@), fr_opp(zkp.c@)),
                    kp.open@.len(),
                ),
                h,
                hide,
                negated(values(zkp.z5@)),
                hide.len(),
            ),
            pp.g2@,
        ),
    )
}

/// `e(R1, T2 * z4) + e(g1, K) + e(vpk, y2 * -c)`, which an honest proof
/// makes equal to the third commitment.
pub open spec fn k3_value(pp: PublicParameters, vpk: Seq<u8>, kp: PiKP, zkp: PiZKP) -> Seq<u8> {
    gt_sum(
        gt_sum(
            pairing(kp.blind_issuer_sig.r1@, g2_mul(kp.blind_issuer_sig.t2@, zkp.z4@)),
            pairing(pp.g1@, key_term(kp, zkp.z3@)),
        ),
        pairing(vpk, g2_mul(pp.y2@, fr_opp(zkp.c@))),
    )
}

/// Why the shape of a presentation is refused, if it is.
pub open spec fn shape_error(pp: PublicParameters, kp: PiKP, zkp: PiZKP, listed: nat) -> Option<Error> {
    if disclosure_error(kp.len as nat, pp.h@.len(), kp.open@) is Some || listed == 0
        || kp.message_list@.len() != kp.open@.len()
        || zkp.z5@.len() != hidden(kp.open@, kp.len as nat).len() {
        Some(Error::InvalidParameter)
    } else {
        None
    }
}

/// What the check of a presentation returns.
pub open spec fn verify_outcome(
    pp: PublicParameters,
    vpk: groth2::PublicKey,
    list: Seq<TrustedIssuerCredential>,
    kp: PiKP,
    zkp: PiZKP,
) -> Result<bool, Error> {
    if shape_error(pp, kp, zkp, list.len()) is Some {
        Err(Error::InvalidParameter)
    } else if g1_is_identity(vpk.0@) {
        Err(Error::InvalidKey)
    } else if zkp.c@ != challenge_value(pp, kp, kp.u_1@, kp.u_2@, kp.u_3@, list) {
        Err(Error::ProofVerificationFailed(ProofCheck::Challenge))
    } else if k1_value(pp, kp, zkp) != kp.u_1@ {
        Err(Error::ProofVerificationFailed(ProofCheck::FirstCommitment))
    } else if k2_value(pp, kp, zkp) != kp.u_2@ {
        Err(Error::ProofVerificationFailed(ProofCheck::SecondCommitment))
    } else if k3_value(pp, vpk.0@, kp, zkp) != kp.u_3@ {
        Err(Error::ProofVerificationFailed(ProofCheck::PolicyBinding))
    } else if !groth2::first_equation(verifier_side(pp), vpk.0@, kp.blind_issuer_sig) {
        Err(Error::ProofVerificationFailed(ProofCheck::PolicyBinding))
    } else {
        Ok(true)
    }
}

/// Why no parameters are derived, if none are: a published encoding does
/// not decode, or a generator is the identity, or two generators of one
/// group are the same.
pub open spec fn par_gen_error() -> Option<Error> {
    match (g1_from_hex(G1_GENERATOR_HEX), g2_from_hex(G2_GENERATOR_HEX)) {
        (Some(g1), Some(g2)) => if distinct_g1(
            seq![g1, groth::y1_point()] + generators(MAX_ATTRIBUTES as nat),
        ) && distinct_g2(seq![g2, groth::y2_point()]) {
            None
        } else {
            Some(Error::InvalidParameter)
        },
        _ => Some(Error::InvalidEncoding),
    }
}

/// Whether no generator is the identity and no two generators of one group
/// are the same.
pub open spec fn sound(pp: PublicParameters) -> bool {
    &&& distinct_g1(seq![pp.g1@, pp.y1@] + g1_views(pp.h@))
    &&& distinct_g2(seq![pp.g2@, pp.y2@])
}

/// Derives the parameters and checks that no generator is the identity and
/// that the generators of each group differ from one another.
pub fn par_gen() -> (r: Result<PublicParameters, Error>)
    ensures
        match r {
            Ok(pp) => par_gen_error() is None && derived(pp) && sound(pp),
            Err(e) => par_gen_error() == Some(e),
        },
{
    let g1 = match decode_g1_hex(G1_GENERATOR_HEX) {
        Ok(p) => p,
        Err(e) => {
            return Err(e);
        },
    };
    let g2 = match decode_g2_hex(G2_GENERATOR_HEX) {
        Ok(p) => p,
        Err(e) => {
            return Err(e);
        },
    };
    let y1 = hash_to_g1(groth::Y1_SEED.as_bytes(), groth::GENERATOR_DST_G1.as_bytes());
    let y2 = hash_to_g2(groth::Y2_SEED.as_bytes(), groth::GENERATOR_DST_G2.as_bytes());
    let h = message_generators(MAX_ATTRIBUTES);
    let first = vec![g1, y1];
    let all1 = joined(&first, &h);
    let all2 = vec![g2, y2];
    assert(g1_views(first@) =~= seq![g1@, y1@]);
    assert(g2_views(all2@) =~= seq![g2@, y2@]);
    if !check_distinct_g1(&all1) || !check_distinct_g2(&all2) {
        return Err(Error::InvalidParameter);
    }
    Ok(PublicParameters { g1, g2, y1, y2, h })
}

/// The parameters of the issuer's signature.
pub fn issuer_parameters(pp: &PublicParameters) -> (r: groth1::PublicParameters)
    ensures
        r == issuer_side(*pp),
{
    groth1::PublicParameters { g1: pp.g1, g2: pp.g2, y1: pp.y1 }
}

/// The parameters of the verifier's signature.
pub fn verifier_parameters(pp: &PublicParameters) -> (r: groth2::PublicParameters)
    ensures
        r == verifier_side(*pp),
{
    groth2::PublicParameters { g1: pp.g1, g2: pp.g2, y2: pp.y2 }
}

/// A fresh issuer key pair.
pub fn issuer_key_gen(pp: &PublicParameters) -> (r: Result<groth1::KeyPair, Error>)
    ensures
        match r {
            Ok(pair) => pair.secret_key.0@ != 0 && pair.public_key.0@ == g2_mul(pp.g2@, pair.secret_key.0@),
            Err(e) => e == Error::RandomnessFailure,
        },
{
    groth1::key_gen(&issuer_parameters(pp))
}

/// The point `sum h[i] * m[i]` that the issuer signs.
pub(crate) fn commit_attributes(pp: &PublicParameters, message: &Vec<Scalar>) -> (r: G1)
    requires
        message.len() <= pp.h.len(),
    ensures
        r@ == attribute_point(*pp, values(message@)),
{
    let zero = g1_scale(&pp.g1, &Scalar::from_u64(0));
    let r = g1_combine(&zero, &pp.h, message, message.len());
    assert(values(message@).len() == message@.len());
    r
}

/// Issues a credential on at least one attribute.
pub fn issue(pp: &PublicParameters, isk: &SecretKey, message: &Vec<Scalar>) -> (r: Result<groth1::Signature, Error>)
    ensures
        match r {
            Ok(sig) => attributes_error(*pp, message@.len()) is None && isk.0@ != 0 && groth1::signed(
                issuer_side(*pp),
                isk.0@,
                attribute_point(*pp, values(message@)),
                sig,
            ),
            Err(e) => if attributes_error(*pp, message@.len()) is Some {
                e == Error::InvalidParameter
            } else if isk.0@ == 0 {
                e == Error::InvalidKey
            } else {
                e == Error::RandomnessFailure
            },
        },
{
    if message.len() == 0 || message.len() > pp.h.len() {
        return Err(Error::InvalidParameter);
    }
    let point = commit_attributes(pp, message);
    groth1::sign(&issuer_parameters(pp), isk, &point)
}

/// Checks a credential on at least one attribute.
pub fn verify(pp: &PublicParameters, cred: &groth1::Signature, message: &Vec<Scalar>, ipk: &groth1::PublicKey) -> (r:
    Result<bool, Error>)
    ensures
        r == if attributes_error(*pp, message@.len()) is Some {
            Err(Error::InvalidParameter)
        } else {
            groth1::verify_outcome(issuer_side(*pp), ipk.0@, *cred, attribute_point(*pp, values(message@)))
        },
{
    if message.len() == 0 || message.len() > pp.h.len() {
        return Err(Error::InvalidParameter);
    }
    let point = commit_attributes(pp, message);
    groth1::verify(&issuer_parameters(pp), ipk, cred, &point)
}

/// A fresh verifier key pair.
pub fn verifier_key_gen(pp: &PublicParameters) -> (r: Result<groth2::KeyPair, Error>)
    ensures
        match r {
            Ok(pair) => pair.secret_key.0@ != 0 && pair.public_key.0@ == g1_mul(pp.g1@, pair.secret_key.0@),
            Err(e) => e == Error::RandomnessFailure,
        },
{
    groth2::key_gen(&verifier_parameters(pp))
}

/// Signs every key of a non-empty list of issuer keys.
pub fn issue_list(pp: &PublicParameters, message: &Vec<groth1::PublicKey>, keypair: &groth2::KeyPair) -> (r: Result<
    (groth2::PublicKey, Vec<TrustedIssuerCredential>),
    Error,
>)
    ensures
        match r {
            Ok(policy) => message@.len() > 0 && !groth1::lists_identity(message@) && keypair.secret_key.0@ != 0
                && policy.0 == keypair.public_key && listed(*pp, keypair.secret_key, message@, policy.1@),
            Err(e) => if message@.len() == 0 {
                e == Error::InvalidParameter
            } else if groth1::lists_identity(message@) || keypair.secret_key.0@ == 0 {
                e == Error::InvalidKey
            } else {
                e == Error::RandomnessFailure
            },
        },
{
    if message.len() == 0 {
        return Err(Error::InvalidParameter);
    }
    if !groth1::check_keys(message) {
        return Err(Error::InvalidKey);
    }
    let vp = verifier_parameters(pp);
    let mut result: Vec<TrustedIssuerCredential> = Vec::new();
    let mut i: usize = 0;
    while i < message.len()
        invariant
            i <= message.len(),
            message.len() > 0,
            !groth1::lists_identity(message@),
            vp == verifier_side(*pp),
            result.len() == i,
            i > 0 ==> keypair.secret_key.0@ != 0,
            forall|j: int|
                #![trigger result[j]]
                0 <= j < i ==> result[j].ipk == message[j] && groth2::signed(
                    verifier_side(*pp),
                    keypair.secret_key.0@,
                    message[j].0@,
                    result[j].cred,
                ),
        decreases message.len() - i,
    {
        let ipk = message[i];
        match groth2::sign(&vp, &keypair.secret_key, &ipk.0) {
            Ok(signature) => {
                result.push(TrustedIssuerCredential { ipk, cred: signature });
            },
            Err(e) => {
                return Err(e);
            },
        }
        i += 1;
    }
    Ok((keypair.public_key, result))
}

/// Checks one entry of a trust list under the verifier's key.
pub fn check_entry(pp: &PublicParameters, vpk: &groth2::PublicKey, entry: &TrustedIssuerCredential) -> (r: Result<
    bool,
    Error,
>)
    ensures
        r == entry_outcome(*pp, vpk.0@, *entry),
{
    if entry.ipk.0.is_identity() {
        return Err(Error::InvalidKey);
    }
    groth2::verify(&verifier_parameters(pp), vpk, &entry.cred, &entry.ipk.0)
}

/// A trust list is accepted exactly when it is not empty and every entry
/// is accepted.
pub proof fn lemma_list_accepted(pp: PublicParameters, vpk: groth2::PublicKey, list: Seq<TrustedIssuerCredential>)
    ensures
        list_outcome(pp, vpk, list) is Ok <==> (list.len() > 0 && forall|i: int|
            0 <= i < list.len() ==> (#[trigger] entry_outcome(pp, vpk.0@, list[i])) is Ok),
{
    lemma_no_rejection(pp, vpk.0@, list, list.len());
}

/// None of the first `n` entries is rejected exactly when each of them is
/// accepted.
pub proof fn lemma_no_rejection(pp: PublicParameters, vpk: Seq<u8>, list: Seq<TrustedIssuerCredential>, n: nat)
    requires
        n <= list.len(),
    ensures
        first_rejection(pp, vpk, list, n) is None <==> (forall|i: int|
            0 <= i < n ==> (#[trigger] entry_outcome(pp, vpk, list[i])) is Ok),
    decreases n,
{
    if n > 0 {
        lemma_no_rejection(pp, vpk, list, (n - 1) as nat);
        if first_rejection(pp, vpk, list, n) is None {
            assert forall|i: int| 0 <= i < n implies (#[trigger] entry_outcome(pp, vpk, list[i])) is Ok by {
                if i == n - 1 {
                    assert(entry_outcome(pp, vpk, list[n - 1]) is Ok);
                }
            }
        } else {
            if first_rejection(pp, vpk, list, (n - 1) as nat) is None {
                assert(entry_outcome(pp, vpk, list[n - 1]) is Err);
            }
        }
    }
}

/// Under the laws of a bilinear group, the trust list that an honest
/// verifier signs is accepted under the verifier's key, where no listed
/// key and no generator is the identity.
pub proof fn lemma_honest_list_verifies(
    pp: PublicParameters,
    vsk: SecretKey,
    vpk: groth2::PublicKey,
    ipks: Seq<groth1::PublicKey>,
    list: Seq<TrustedIssuerCredential>,
)
    requires
        group_laws(),
        groth2::parameters_valid(verifier_side(pp)),
        !g1_is_identity(pp.g1@),
        0 < vsk.0@ < modulus(),
        vpk.0@ == g1_mul(pp.g1@, vsk.0@),
        ipks.len() > 0,
        listed(pp, vsk, ipks, list),
        forall|i: int| 0 <= i < ipks.len() ==> is_g2((#[trigger] ipks[i]).0@) && !g2_is_identity(ipks[i].0@),
    ensures
        list_outcome(pp, vpk, list) == Ok::<bool, Error>(true),
{
    assert forall|i: int| 0 <= i < list.len() implies (#[trigger] entry_outcome(pp, vpk.0@, list[i])) is Ok by {
        assert(ipks[i].0@ == list[i].ipk.0@);
        let r = choose|r: nat| 0 < r < modulus() && #[trigger] groth2::signs(
            verifier_side(pp),
            vsk.0@,
            ipks[i].0@,
            r,
            list[i].cred,
        );
        lemma_nonce_reduced(verifier_side(pp), vsk.0@, ipks[i].0@, r, list[i].cred);
    }
    lemma_list_accepted(pp, vpk, list);
}

/// Under the laws of a bilinear group, a signature made with any nonce but
/// zero is accepted under the public key of the secret, unless the
/// generator is the identity.
pub proof fn lemma_nonce_reduced(
    vp: groth2::PublicParameters,
    x: nat,
    message: Seq<u8>,
    r: nat,
    sig: groth2::Signature,
)
    requires
        group_laws(),
        groth2::parameters_valid(vp),
        is_g2(message),
        0 < x < modulus(),
        0 < r < modulus(),
        groth2::signs(vp, x, message, r, sig),
    ensures
        !g1_is_identity(vp.g1@) ==> groth2::verify_outcome(vp, g1_mul(vp.g1@, x), sig, message) == Ok::<
            bool,
            Error,
        >(true),
{
    groth2::lemma_signature_verifies(vp, x, message, r, sig);
}

/// Whether the random scalars are below the modulus.
pub open spec fn blinding_valid(b: Blinding) -> bool {
    &&& b.rho1@ < modulus()
    &&& b.rho2@ < modulus()
    &&& b.alpha@ < modulus()
    &&& b.beta@ < modulus()
    &&& b.gamma@ < modulus()
    &&& b.delta@ < modulus()
    &&& b.r1@ < modulus()
    &&& b.r2@ < modulus()
    &&& b.r3@ < modulus()
    &&& b.r4@ < modulus()
}

/// Under the laws of a bilinear group, the part of the issuer key term that
/// the challenge adds is a pairing with `g2 * -(x * c)`.
pub proof fn lemma_key_term_splits(p: Seq<u8>, g2: Seq<u8>, x: nat, gamma: nat, r3: nat, c: nat)
    requires
        group_laws(),
        is_g1(p),
        is_g2(g2),
        x < modulus(),
        0 < gamma < modulus(),
        c < modulus(),
    ensures
        ({
            let blind_ipk = g2_mul(g2_mul(g2, x), fr_inv(gamma));
            pairing(p, g2_mul(blind_ipk, fr_opp(fr_sum(r3, fr_prod(c, gamma))))) == gt_sum(
                pairing(p, g2_mul(blind_ipk, fr_opp(r3))),
                pairing(p, g2_mul(g2, fr_opp(fr_prod(x, c)))),
            )
        }),
{
    let blind_ipk = g2_mul(g2_mul(g2, x), fr_inv(gamma));
    let cg = fr_prod(c, gamma);
    law_g2_mul(g2, x);
    law_g2_mul(g2_mul(g2, x), fr_inv(gamma));
    law_g2_mul(blind_ipk, fr_opp(r3));
    law_g2_mul(blind_ipk, fr_opp(cg));
    lemma_fr_opp_sum(r3, cg);
    law_g2_mul_add(blind_ipk, fr_opp(r3), fr_opp(cg));
    law_pairing_right(p, g2_mul(blind_ipk, fr_opp(r3)), g2_mul(blind_ipk, fr_opp(cg)));
    // blind_ipk * -(c * gamma) = g2 * -(x * c)
    law_g2_mul_mul(g2, x, fr_inv(gamma));
    law_g2_mul_mul(g2, fr_prod(x, fr_inv(gamma)), fr_opp(cg));
    assert(fr_prod(fr_prod(x, fr_inv(gamma)), fr_opp(cg)) == fr_opp(fr_prod(x, c))) by {
        lemma_fr_prod_opp(fr_prod(x, fr_inv(gamma)), cg);
        lemma_fr_prod_assoc(x, fr_inv(gamma), cg);
        lemma_fr_inverse_absorbed(c, gamma);
    }
}

/// Under the laws of a bilinear group, the first commitment that a
/// verifier recomputes from honest responses is the holder's.
pub proof fn lemma_first_commitment_recomputed(
    pp: PublicParameters,
    x: nat,
    message: Seq<u8>,
    r: nat,
    cred: groth1::Signature,
    b: Blinding,
    kp: PiKP,
    zkp: PiZKP,
)
    requires
        group_laws(),
        groth1::parameters_valid(issuer_side(pp)),
        blinding_valid(b),
        is_g1(message),
        x < modulus(),
        0 < r < modulus(),
        zkp.c@ < modulus(),
        b.rho1@ != 0 && b.alpha@ != 0 && b.gamma@ != 0,
        groth1::signs(issuer_side(pp), x, message, r, cred),
        kp.blind_cred.r2@ == g2_mul(cred.r2@, b.rho1@),
        kp.blind_cred.s1@ == g1_mul(g1_mul(cred.s1@, fr_inv(b.rho1@)), fr_inv(b.alpha@)),
        kp.blind_ipk.0@ == g2_mul(g2_mul(pp.g2@, x), fr_inv(b.gamma@)),
        zkp.z1@ == fr_sum(b.r1@, fr_prod(zkp.c@, b.alpha@)),
        zkp.z3@ == fr_sum(b.r3@, fr_prod(zkp.c@, b.gamma@)),
    ensures
        k1_value(pp, kp, zkp) == u1_value(pp, kp, b.r1@, b.r3@),
{
    let g1 = pp.g1@;
    let g2 = pp.g2@;
    let y1 = pp.y1@;
    let c = zkp.c@;
    let alpha = b.alpha@;
    let rho = b.rho1@;
    let s1 = kp.blind_cred.s1@;
    let r2 = kp.blind_cred.r2@;
    let base = g1_sum(y1, g1_mul(g1, x));
    let weight = fr_prod(fr_prod(fr_inv(r), fr_inv(rho)), fr_inv(alpha));
    let ca = fr_prod(c, alpha);
    law_g1_mul(g1, x);
    law_g1_sum(y1, g1_mul(g1, x));
    law_g1_mul(base, fr_inv(r));
    // s1 = base * weight and r2 = g2 * (r * rho)
    law_g1_mul_mul(base, fr_inv(r), fr_inv(rho));
    law_g1_mul_mul(base, fr_prod(fr_inv(r), fr_inv(rho)), fr_inv(alpha));
    law_g2_mul_mul(g2, r, rho);
    law_g1_mul(base, weight);
    law_g2_mul(g2, fr_prod(r, rho));
    // the response splits the first pairing
    law_g1_mul(s1, b.r1@);
    law_g1_mul(s1, ca);
    law_g1_mul_add(s1, b.r1@, ca);
    law_pairing_left(g1_mul(s1, b.r1@), g1_mul(s1, ca), r2);
    // what the challenge adds is e(base * c, g2) = e(y1, g2 * c) + e(g1, g2 * (x * c))
    law_g1_mul_mul(base, weight, ca);
    law_g1_mul(base, fr_prod(weight, ca));
    law_pairing_scalar(g1_mul(base, fr_prod(weight, ca)), g2, fr_prod(r, rho));
    law_g1_mul_mul(base, fr_prod(weight, ca), fr_prod(r, rho));
    lemma_fr_blinding_cancels(c, r, rho, alpha);
    assert(pairing(g1_mul(s1, ca), r2) == pairing(g1_mul(base, c), g2));
    law_g1_add_mul(y1, g1_mul(g1, x), c);
    law_g1_mul(y1, c);
    law_g1_mul(g1_mul(g1, x), c);
    law_pairing_left(g1_mul(y1, c), g1_mul(g1_mul(g1, x), c), g2);
    law_pairing_scalar(y1, g2, c);
    law_g1_mul_mul(g1, x, c);
    law_pairing_scalar(g1, g2, fr_prod(x, c));
    // the key term splits the second pairing
    lemma_key_term_splits(g1, g2, x, b.gamma@, b.r3@, c);
    lemma_gt_two_pairs_cancel(
        pairing(g1_mul(s1, b.r1@), r2),
        pairing(g1, key_term(kp, b.r3@)),
        y1,
        g2,
        c,
        g1,
        g2,
        fr_prod(x, c),
    );
}

/// Under the laws of a bilinear group, the point that a verifier folds
/// from the disclosed attributes and the honest responses for the hidden
/// ones is the holder's fold of the blinds plus the signed point times
/// `-c`.
pub proof fn lemma_hidden_fold_recomputed(
    g1: Seq<u8>,
    h: Seq<Seq<u8>>,
    m: Seq<nat>,
    open: Seq<usize>,
    r5: Seq<nat>,
    c: nat,
)
    requires
        group_laws(),
        is_g1(g1),
        all_g1(h),
        m.len() <= h.len(),
        m.len() <= usize::MAX,
        increasing_below(open, m.len()),
        r5.len() == hidden(open, m.len()).len(),
    ensures
        ({
            let zero = g1_mul(g1, 0);
            let hide = hidden(open, m.len());
            g1_lincomb_at(
                g1_lincomb_at(zero, h, open, scaled(selected(m, open), fr_opp(c)), open.len()),
                h,
                hide,
                negated(masked_plus(r5, c, selected(m, hide))),
                hide.len(),
            ) == g1_sum(
                g1_lincomb_at(zero, h, hide, negated(r5), hide.len()),
                g1_mul(g1_lincomb(zero, h, m, m.len()), fr_opp(c)),
            )
        }),
{
    let n = m.len();
    let zero = g1_mul(g1, 0);
    let hide = hidden(open, n);
    let minus_c = fr_opp(c);
    let shown_weights = scaled(selected(m, open), minus_c);
    let responses = negated(masked_plus(r5, c, selected(m, hide)));
    let weights = scaled(m, minus_c);
    let minus_hidden = Seq::new(hide.len(), |j: int| fr_opp(fr_prod(c, m[hide[j] as int])));
    lemma_hidden_members(open, n);
    assert forall|k: int| 0 <= k < hide.len() implies hide[k] < n by {
        assert(hide.contains(hide[k]));
    }
    law_g1_mul(g1, 0);
    let shown_sum = g1_lincomb_at(zero, h, open, shown_weights, open.len());
    let hidden_blinds = g1_lincomb_at(zero, h, hide, negated(r5), hide.len());
    let hidden_back = g1_lincomb_at(zero, h, hide, minus_hidden, hide.len());
    let hidden_responses = g1_lincomb_at(zero, h, hide, responses, hide.len());
    lemma_g1_lincomb_at_valid(zero, h, open, shown_weights, open.len());
    lemma_g1_lincomb_at_valid(zero, h, hide, negated(r5), hide.len());
    lemma_g1_lincomb_at_valid(zero, h, hide, minus_hidden, hide.len());
    lemma_g1_lincomb_at_valid(zero, h, hide, responses, hide.len());
    // the verifier's fold is the disclosed part plus the responses' part
    lemma_g1_lincomb_at_from(shown_sum, g1, h, hide, responses, hide.len());
    // the responses' part is the blinds' part plus the hidden attributes' part
    assert forall|j: int| 0 <= j < hide.len() implies responses[j] == fr_sum(negated(r5)[j], minus_hidden[j]) by {
        lemma_fr_opp_sum(r5[j], fr_prod(c, m[hide[j] as int]));
    }
    lemma_g1_lincomb_at_add(g1, h, hide, responses, negated(r5), minus_hidden, hide.len());
    // the signed point times -c is the disclosed part plus the hidden attributes' part
    lemma_g1_lincomb_scale(g1, h, m, minus_c, n);
    lemma_g1_partition(g1, h, weights, open, n);
    assert forall|j: int| 0 <= j < open.len() implies selected(weights, open)[j] == shown_weights[j] by {
        assert(open[j] < n);
    }
    lemma_g1_lincomb_at_prefix(zero, h, open, selected(weights, open), open, shown_weights, open.len());
    assert forall|j: int| 0 <= j < hide.len() implies selected(weights, hide)[j] == minus_hidden[j] by {
        let a = m[hide[j] as int];
        assert(hide[j] < n);
        lemma_fr_prod_opp(a, c);
        lemma_fr_basics(a, c);
    }
    lemma_g1_lincomb_at_prefix(zero, h, hide, selected(weights, hide), hide, minus_hidden, hide.len());
    // shown + (blinds + back) = blinds + (shown + back)
    law_g1_assoc(shown_sum, hidden_blinds, hidden_back);
    law_g1_sum(shown_sum, hidden_blinds);
    law_g1_assoc(hidden_blinds, shown_sum, hidden_back);
}

/// Under the laws of a bilinear group, the second commitment that a
/// verifier recomputes from honest responses is the holder's.
pub proof fn lemma_second_commitment_recomputed(
    pp: PublicParameters,
    x: nat,
    m: Seq<nat>,
    r: nat,
    cred: groth1::Signature,
    b: Blinding,
    kp: PiKP,
    zkp: PiZKP,
)
    requires
        group_laws(),
        groth1::parameters_valid(issuer_side(pp)),
        all_g1(g1_views(pp.h@)),
        blinding_valid(b),
        1 <= m.len() <= pp.h@.len(),
        m.len() <= usize::MAX,
        x < modulus(),
        0 < r < modulus(),
        zkp.c@ < modulus(),
        b.rho1@ != 0 && b.beta@ != 0 && b.gamma@ != 0,
        groth1::signs(issuer_side(pp), x, attribute_point(pp, m), r, cred),
        increasing_below(kp.open@, m.len()),
        kp.len == m.len(),
        values(kp.message_list@) == selected(m, kp.open@),
        b.r5@.len() == hidden(kp.open@, m.len()).len(),
        kp.blind_cred.r2@ == g2_mul(cred.r2@, b.rho1@),
        kp.blind_cred.t1@ == g1_mul(g1_mul(cred.t1@, fr_inv(b.rho1@)), fr_inv(b.beta@)),
        kp.blind_ipk.0@ == g2_mul(g2_mul(pp.g2@, x), fr_inv(b.gamma@)),
        zkp.z2@ == fr_sum(b.r2@, fr_prod(zkp.c@, b.beta@)),
        zkp.z3@ == fr_sum(b.r3@, fr_prod(zkp.c@, b.gamma@)),
        values(zkp.z5@) == masked_plus(values(b.r5@), zkp.c@, selected(m, hidden(kp.open@, m.len()))),
    ensures
        k2_value(pp, kp, zkp) == u2_value(pp, kp, hidden(kp.open@, m.len()), b.r2@, b.r3@, values(b.r5@)),
{
    let g1 = pp.g1@;
    let g2 = pp.g2@;
    let y1 = pp.y1@;
    let h = g1_views(pp.h@);
    let n = m.len();
    let hide = hidden(kp.open@, n);
    let c = zkp.c@;
    let beta = b.beta@;
    let rho = b.rho1@;
    let t1 = kp.blind_cred.t1@;
    let r2 = kp.blind_cred.r2@;
    let zero = zero_point(pp);
    let signed = attribute_point(pp, m);
    let base = g1_sum(g1_mul(y1, x), signed);
    let weight = fr_prod(fr_prod(fr_inv(r), fr_inv(rho)), fr_inv(beta));
    let cb = fr_prod(c, beta);
    assert(h.len() == pp.h@.len());
    law_g1_mul(g1, 0);
    lemma_g1_lincomb_valid(zero, h, m, n);
    law_g1_mul(y1, x);
    law_g1_sum(g1_mul(y1, x), signed);
    law_g1_mul(base, fr_inv(r));
    // t1 = base * weight and r2 = g2 * (r * rho)
    law_g1_mul_mul(base, fr_inv(r), fr_inv(rho));
    law_g1_mul_mul(base, fr_prod(fr_inv(r), fr_inv(rho)), fr_inv(beta));
    law_g2_mul_mul(g2, r, rho);
    law_g1_mul(base, weight);
    law_g2_mul(g2, fr_prod(r, rho));
    // the response splits the first pairing
    law_g1_mul(t1, b.r2@);
    law_g1_mul(t1, cb);
    law_g1_mul_add(t1, b.r2@, cb);
    law_pairing_left(g1_mul(t1, b.r2@), g1_mul(t1, cb), r2);
    // what the challenge adds is e(base * c, g2) = e(y1, g2 * (x * c)) + e(signed, g2 * c)
    law_g1_mul_mul(base, weight, cb);
    law_g1_mul(base, fr_prod(weight, cb));
    law_pairing_scalar(g1_mul(base, fr_prod(weight, cb)), g2, fr_prod(r, rho));
    law_g1_mul_mul(base, fr_prod(weight, cb), fr_prod(r, rho));
    lemma_fr_blinding_cancels(c, r, rho, beta);
    assert(pairing(g1_mul(t1, cb), r2) == pairing(g1_mul(base, c), g2));
    law_g1_add_mul(g1_mul(y1, x), signed, c);
    law_g1_mul(g1_mul(y1, x), c);
    law_g1_mul(signed, c);
    law_pairing_left(g1_mul(g1_mul(y1, x), c), g1_mul(signed, c), g2);
    law_g1_mul_mul(y1, x, c);
    law_pairing_scalar(y1, g2, fr_prod(x, c));
    law_pairing_scalar(signed, g2, c);
    // the key term splits the second pairing
    lemma_key_term_splits(y1, g2, x, b.gamma@, b.r3@, c);
    // the verifier's fold splits the third pairing
    let blinds = g1_lincomb_at(zero, h, hide, negated(values(b.r5@)), hide.len());
    lemma_hidden_members(kp.open@, n);
    assert forall|k: int| 0 <= k < hide.len() implies hide[k] < h.len() by {
        assert(hide.contains(hide[k]));
    }
    lemma_g1_lincomb_at_valid(zero, h, hide, negated(values(b.r5@)), hide.len());
    assert(values(b.r5@).len() == b.r5@.len());
    lemma_hidden_fold_recomputed(g1, h, m, kp.open@, values(b.r5@), c);
    law_g1_mul(signed, fr_opp(c));
    law_pairing_left(blinds, g1_mul(signed, fr_opp(c)), g2);
    law_pairing_scalar(signed, g2, fr_opp(c));
    // ((a + (b1 + b2)) + (c + d)) + (e1 + e2) = (a + c) + e1
    let first = pairing(g1_mul(t1, b.r2@), r2);
    let key = pairing(y1, key_term(kp, b.r3@));
    let b1 = pairing(y1, g2_mul(g2, fr_prod(x, c)));
    let b2 = pairing(signed, g2_mul(g2, c));
    let d = pairing(y1, g2_mul(g2, fr_opp(fr_prod(x, c))));
    let e1 = pairing(blinds, g2);
    let e2 = pairing(signed, g2_mul(g2, fr_opp(c)));
    let inner = gt_sum(gt_sum(first, gt_sum(b1, b2)), gt_sum(key, d));
    assert(k2_value(pp, kp, zkp) == gt_sum(inner, gt_sum(e1, e2)));
    law_gt_sum(b1, b2, b2);
    lemma_gt_two_pairs_cancel(first, key, signed, g2, c, y1, g2, fr_prod(x, c));
    assert(gt_sum(inner, e2) == gt_sum(first, key));
    law_gt_sum(e1, e2, e2);
    law_gt_sum(inner, e2, e1);
}

/// Under the laws of a bilinear group, the third commitment that a
/// verifier recomputes from honest responses is the holder's.
pub proof fn lemma_third_commitment_recomputed(
    pp: PublicParameters,
    x: nat,
    x_v: nat,
    r_v: nat,
    listed: groth2::Signature,
    b: Blinding,
    kp: PiKP,
    zkp: PiZKP,
)
    requires
        group_laws(),
        groth2::parameters_valid(verifier_side(pp)),
        blinding_valid(b),
        x < modulus(),
        x_v < modulus(),
        0 < r_v < modulus(),
        zkp.c@ < modulus(),
        b.rho2@ != 0 && b.delta@ != 0 && b.gamma@ != 0,
        groth2::signs(verifier_side(pp), x_v, g2_mul(pp.g2@, x), r_v, listed),
        kp.blind_issuer_sig.r1@ == g1_mul(listed.r1@, b.rho2@),
        kp.blind_issuer_sig.t2@ == g2_mul(g2_mul(listed.t2@, fr_inv(b.rho2@)), fr_inv(b.delta@)),
        kp.blind_ipk.0@ == g2_mul(g2_mul(pp.g2@, x), fr_inv(b.gamma@)),
        zkp.z4@ == fr_sum(b.r4@, fr_prod(zkp.c@, b.delta@)),
        zkp.z3@ == fr_sum(b.r3@, fr_prod(zkp.c@, b.gamma@)),
    ensures
        k3_value(pp, g1_mul(pp.g1@, x_v), kp, zkp) == u3_value(pp, kp, b.r3@, b.r4@),
{
    let g1 = pp.g1@;
    let g2 = pp.g2@;
    let y2 = pp.y2@;
    let c = zkp.c@;
    let delta = b.delta@;
    let rho = b.rho2@;
    let r1 = kp.blind_issuer_sig.r1@;
    let t2 = kp.blind_issuer_sig.t2@;
    let ipk = g2_mul(g2, x);
    let base = g2_sum(g2_mul(y2, x_v), ipk);
    let weight = fr_prod(fr_prod(fr_inv(r_v), fr_inv(rho)), fr_inv(delta));
    let cd = fr_prod(c, delta);
    law_g2_mul(g2, x);
    law_g2_mul(y2, x_v);
    law_g2_sum(g2_mul(y2, x_v), ipk);
    law_g2_mul(base, fr_inv(r_v));
    // t2 = base * weight and r1 = g1 * (r_v * rho)
    law_g2_mul_mul(base, fr_inv(r_v), fr_inv(rho));
    law_g2_mul_mul(base, fr_prod(fr_inv(r_v), fr_inv(rho)), fr_inv(delta));
    law_g1_mul_mul(g1, r_v, rho);
    law_g2_mul(base, weight);
    law_g1_mul(g1, fr_prod(r_v, rho));
    // the response splits the first pairing
    law_g2_mul(t2, b.r4@);
    law_g2_mul(t2, cd);
    law_g2_mul_add(t2, b.r4@, cd);
    law_pairing_right(r1, g2_mul(t2, b.r4@), g2_mul(t2, cd));
    // what the challenge adds is e(g1, base * c) = e(g1, y2 * (x_v * c)) + e(g1, g2 * (x * c))
    law_g2_mul_mul(base, weight, cd);
    law_g2_mul(base, fr_prod(weight, cd));
    law_pairing_scalar(g1, g2_mul(base, fr_prod(weight, cd)), fr_prod(r_v, rho));
    law_g2_mul_mul(base, fr_prod(weight, cd), fr_prod(r_v, rho));
    lemma_fr_blinding_cancels(c, r_v, rho, delta);
    assert(pairing(r1, g2_mul(t2, cd)) == pairing(g1, g2_mul(base, c)));
    law_g2_add_mul(g2_mul(y2, x_v), ipk, c);
    law_g2_mul(g2_mul(y2, x_v), c);
    law_g2_mul(ipk, c);
    law_pairing_right(g1, g2_mul(g2_mul(y2, x_v), c), g2_mul(ipk, c));
    law_g2_mul_mul(y2, x_v, c);
    law_g2_mul_mul(g2, x, c);
    // the key term splits the second pairing
    lemma_key_term_splits(g1, g2, x, b.gamma@, b.r3@, c);
    // e(vpk, y2 * -c) = e(g1, y2 * -(x_v * c))
    law_g2_mul(y2, fr_opp(c));
    law_pairing_scalar(g1, g2_mul(y2, fr_opp(c)), x_v);
    law_g2_mul_mul(y2, fr_opp(c), x_v);
    lemma_fr_prod_opp(x_v, c);
    lemma_gt_two_pairs_cancel(
        pairing(r1, g2_mul(t2, b.r4@)),
        pairing(g1, key_term(kp, b.r3@)),
        g1,
        y2,
        fr_prod(x_v, c),
        g1,
        g2,
        fr_prod(x, c),
    );
}

/// Under the laws of a bilinear group, the presentation that an honest
/// holder makes is accepted, where the parameters are points, the holder's
/// credential was issued under the issuer key that the holder names, and
/// the entry of the trust list that the holder uses carries that key with
/// the verifier's signature on it.
pub proof fn lemma_honest_presentation_verifies(
    pp: PublicParameters,
    isk: SecretKey,
    ipk: groth1::PublicKey,
    issue_nonce: nat,
    cred: groth1::Signature,
    m: Seq<Scalar>,
    open: Seq<usize>,
    vsk: SecretKey,
    vpk: groth2::PublicKey,
    list_nonce: nat,
    list: Seq<TrustedIssuerCredential>,
    b: Blinding,
    kp: PiKP,
    zkp: PiZKP,
)
    requires
        group_laws(),
        groth1::parameters_valid(issuer_side(pp)),
        groth2::parameters_valid(verifier_side(pp)),
        !g1_is_identity(pp.g1@),
        all_g1(g1_views(pp.h@)),
        pp.h@.len() <= usize::MAX,
        blinding_valid(b),
        isk.0@ < modulus(),
        0 < vsk.0@ < modulus(),
        0 < issue_nonce < modulus(),
        0 < list_nonce < modulus(),
        zkp.c@ < modulus(),
        ipk.0@ == g2_mul(pp.g2@, isk.0@),
        vpk.0@ == g1_mul(pp.g1@, vsk.0@),
        groth1::signs(issuer_side(pp), isk.0@, attribute_point(pp, values(m)), issue_nonce, cred),
        list.len() > 0,
        ({
            let entry = list[chosen(list, ipk.0@, list.len())];
            entry.ipk.0@ == ipk.0@ && groth2::signs(verifier_side(pp), vsk.0@, ipk.0@, list_nonce, entry.cred)
        }),
        present_error(pp, m.len(), open, list.len(), b) is None,
        presents(pp, cred, ipk, m, open, list, b, kp, zkp),
    ensures
        verify_outcome(pp, vpk, list, kp, zkp) == Ok::<bool, Error>(true),
{
    let g1 = pp.g1@;
    let g2 = pp.g2@;
    let n = m.len();
    lemma_disclosed(open, n);
    let open = disclosed(open, n);
    let hide = hidden(open, n);
    let entry = list[chosen(list, ipk.0@, list.len())];
    let x = isk.0@;
    assert(values(m).len() == n);
    // the shape of the presentation
    lemma_hidden_members(open, n);
    assert forall|k: int| 0 <= k < hide.len() implies hide[k] < n by {
        assert(hide.contains(hide[k]));
    }
    lemma_values_selected(m, open);
    lemma_values_selected(m, hide);
    assert(values(zkp.z5@).len() == zkp.z5@.len());
    assert(values(b.r5@).len() == b.r5@.len());
    assert(values(kp.message_list@).len() == kp.message_list@.len());
    law_g1_identity(g1, vsk.0@);
    // the three commitments
    law_g1_mul(g1, 0);
    lemma_g1_lincomb_valid(zero_point(pp), g1_views(pp.h@), values(m), n);
    lemma_first_commitment_recomputed(pp, x, attribute_point(pp, values(m)), issue_nonce, cred, b, kp, zkp);
    lemma_second_commitment_recomputed(pp, x, values(m), issue_nonce, cred, b, kp, zkp);
    lemma_third_commitment_recomputed(pp, x, vsk.0@, list_nonce, entry.cred, b, kp, zkp);
    // the first equation of the randomized list signature
    let base = g2_sum(pp.y2@, g2_mul(g2, vsk.0@));
    law_g2_mul(g2, vsk.0@);
    law_g2_sum(pp.y2@, g2_mul(g2, vsk.0@));
    law_g2_mul(base, fr_inv(list_nonce));
    law_g1_mul(g1, list_nonce);
    law_g2_mul(g2, x);
    groth2::lemma_signature_verifies(verifier_side(pp), vsk.0@, ipk.0@, list_nonce, entry.cred);
    law_g2_mul(entry.cred.s2@, fr_inv(b.rho2@));
    law_pairing_scalar(entry.cred.r1@, g2_mul(entry.cred.s2@, fr_inv(b.rho2@)), b.rho2@);
    lemma_g2_inverse_scaling(entry.cred.s2@, b.rho2@);
}

/// Once an entry is rejected, the error stays as more entries are looked at.
pub proof fn lemma_rejection_stays(
    pp: PublicParameters,
    vpk: Seq<u8>,
    list: Seq<TrustedIssuerCredential>,
    k: nat,
    n: nat,
)
    requires
        k <= n,
        first_rejection(pp, vpk, list, k) is Some,
    ensures
        first_rejection(pp, vpk, list, n) == first_rejection(pp, vpk, list, k),
    decreases n,
{
    if k < n {
        lemma_rejection_stays(pp, vpk, list, k, (n - 1) as nat);
    }
}

/// Checks every entry of a trust list under the verifier's key.
pub fn verify_list(pp: &PublicParameters, policy: &(groth2::PublicKey, Vec<TrustedIssuerCredential>)) -> (r: Result<
    bool,
    Error,
>)
    ensures
        r == list_outcome(*pp, policy.0, policy.1@),
{
    let vpk = &policy.0;
    let list = &policy.1;
    if list.len() == 0 {
        return Err(Error::InvalidParameter);
    }
    let mut i: usize = 0;
    while i < list.len()
        invariant
            i <= list.len(),
            *list == policy.1,
            *vpk == policy.0,
            first_rejection(*pp, vpk.0@, list@, i as nat) is None,
        decreases list.len() - i,
    {
        match check_entry(pp, vpk, &list[i]) {
            Ok(_) => {},
            Err(e) => {
                proof {
                    assert(first_rejection(*pp, vpk.0@, list@, (i + 1) as nat) == Some(e));
                    lemma_rejection_stays(*pp, vpk.0@, list@, (i + 1) as nat, list@.len());
                }
                return Err(e);
            },
        }
        i += 1;
    }
    Ok(true)
}

/// The position of the entry that a holder with the given issuer key uses.
pub(crate) fn choose_entry(list: &Vec<TrustedIssuerCredential>, ipk: &groth1::PublicKey) -> (r: usize)
    requires
        list.len() > 0,
    ensures
        r == chosen(list@, ipk.0@, list@.len()),
        r < list.len(),
{
    let mut found: usize = 0;
    let mut i: usize = 0;
    while i < list.len()
        invariant
            i <= list.len(),
            list.len() > 0,
            found == chosen(list@, ipk.0@, i as nat),
            found < list.len(),
        decreases list.len() - i,
    {
        if list[i].ipk.0.same(&ipk.0) {
            found = i;
        }
        i += 1;
    }
    found
}

/// Appends the entries of a trust list to a challenge input.
pub fn absorb_policy(buf: &mut Vec<u8>, list: &Vec<TrustedIssuerCredential>)
    ensures
        final(buf)@ == old(buf)@ + policy_bytes(list@, list@.len()),
{
    let mut i: usize = 0;
    while i < list.len()
        invariant
            i <= list.len(),
            buf@ == old(buf)@ + policy_bytes(list@, i as nat),
        decreases list.len() - i,
    {
        absorb_g2(buf, &list[i].ipk.0);
        absorb_g1(buf, &list[i].cred.r1);
        absorb_g2(buf, &list[i].cred.s2);
        absorb_g2(buf, &list[i].cred.t2);
        i += 1;
        assert(buf@ =~= old(buf)@ + policy_bytes(list@, i as nat));
    }
}

/// The challenge that belongs to the public part of a presentation and the
/// three commitments.
pub(crate) fn challenge(pp: &PublicParameters, kp: &PiKP, u1: &Gt, u2: &Gt, u3: &Gt, list: &Vec<TrustedIssuerCredential>) -> (r:
    Scalar)
    requires
        kp.len <= pp.h.len(),
    ensures
        r@ == challenge_value(*pp, *kp, u1@, u2@, u3@, list@),
{
    let mut buf: Vec<u8> = Vec::new();
    absorb_g2(&mut buf, &kp.blind_cred.r2);
    absorb_g1(&mut buf, &kp.blind_cred.s1);
    absorb_g1(&mut buf, &kp.blind_cred.t1);
    absorb_g2(&mut buf, &kp.blind_ipk.0);
    absorb_g1(&mut buf, &kp.blind_issuer_sig.r1);
    absorb_g2(&mut buf, &kp.blind_issuer_sig.s2);
    absorb_g2(&mut buf, &kp.blind_issuer_sig.t2);
    absorb_g1_list(&mut buf, &pp.h, kp.len);
    absorb_index_list(&mut buf, &kp.open);
    absorb_scalar_list(&mut buf, &kp.message_list);
    assert(encodings(kp.message_list@).len() == kp.message_list@.len());
    absorb_gt(&mut buf, u1);
    absorb_gt(&mut buf, u2);
    absorb_gt(&mut buf, u3);
    absorb_policy(&mut buf, list);
    assert(buf@ =~= challenge_input(*pp, *kp, u1@, u2@, u3@, list@));
    hash_to_fr(buf.as_slice(), PRESENTATION_DST.as_bytes())
}

/// The presentation that the given random scalars give, with the disclosed
/// indices sorted. The indices may come in any order; none may come twice.
pub fn present_with(
    pp: &PublicParameters,
    cred: &groth1::Signature,
    ipk: &groth1::PublicKey,
    message: &Vec<Scalar>,
    policy: &(groth2::PublicKey, Vec<TrustedIssuerCredential>),
    open: &Vec<usize>,
    blinding: &Blinding,
) -> (r: Result<(PiKP, PiZKP), Error>)
    ensures
        match r {
            Ok(proof) => present_error(*pp, message@.len(), open@, policy.1@.len(), *blinding) is None && presents(
                *pp,
                *cred,
                *ipk,
                message@,
                open@,
                policy.1@,
                *blinding,
                proof.0,
                proof.1,
            ),
            Err(e) => present_error(*pp, message@.len(), open@, policy.1@.len(), *blinding) == Some(e),
        },
        r matches Ok(proof) ==> proof.0.open@.len() == open@.len() && proof.1.z5@.len() + open@.len()
            == message@.len(),
{
    let list = &policy.1;
    let n = message.len();
    if !check_inputs(n, pp.h.len(), open) || list.len() == 0 {
        return Err(Error::InvalidParameter);
    }
    let sorted = sorted_indices(open, n);
    let close = hidden_indices(&sorted, n);
    proof {
        lemma_disclosed(open@, n as nat);
        lemma_disclosed_count(open@, n as nat);
    }
    if blinding.r5.len() != close.len() {
        return Err(Error::InvalidParameter);
    }
    let new_cred = match groth1::rand_sign_with(cred, &blinding.rho1) {
        Ok(s) => s,
        Err(e) => {
            return Err(e);
        },
    };
    let entry = list[choose_entry(list, ipk)];
    let new_issuer_sig = match groth2::rand_sign_with(&entry.cred, &blinding.rho2) {
        Ok(s) => s,
        Err(e) => {
            return Err(e);
        },
    };
    let alpha_inverse = match blinding.alpha.invert() {
        Some(i) => i,
        None => {
            return Err(Error::RandomnessFailure);
        },
    };
    let beta_inverse = match blinding.beta.invert() {
        Some(i) => i,
        None => {
            return Err(Error::RandomnessFailure);
        },
    };
    let gamma_inverse = match blinding.gamma.invert() {
        Some(i) => i,
        None => {
            return Err(Error::RandomnessFailure);
        },
    };
    let delta_inverse = match blinding.delta.invert() {
        Some(i) => i,
        None => {
            return Err(Error::RandomnessFailure);
        },
    };
    let blind_cred = groth1::Signature {
        r2: new_cred.r2,
        s1: g1_scale(&new_cred.s1, &alpha_inverse),
        t1: g1_scale(&new_cred.t1, &beta_inverse),
    };
    let blind_ipk = groth1::PublicKey(g2_scale(&ipk.0, &gamma_inverse));
    let blind_issuer_sig = groth2::Signature {
        r1: new_issuer_sig.r1,
        s2: new_issuer_sig.s2,
        t2: g2_scale(&new_issuer_sig.t2, &delta_inverse),
    };
    let message_open_list = select_scalars(message, &sorted);
    let message_close_list = select_scalars(message, &close);

    let minus_r3 = fr_neg(&blinding.r3);
    let k_ipk = g2_scale(&blind_ipk.0, &minus_r3);
    let zero = g1_scale(&pp.g1, &Scalar::from_u64(0));
    let minus_r5 = negate_all(&blinding.r5);
    let message_close_rand = g1_combine_at(&zero, &pp.h, &close, &minus_r5);
    let g1_k = pair(&pp.g1, &k_ipk);
    let s1_r1 = g1_scale(&blind_cred.s1, &blinding.r1);
    let u1 = gt_add(&pair(&s1_r1, &blind_cred.r2), &g1_k);
    let t1_r2 = g1_scale(&blind_cred.t1, &blinding.r2);
    let u2_head = gt_add(&pair(&t1_r2, &blind_cred.r2), &pair(&pp.y1, &k_ipk));
    let u2 = gt_add(&u2_head, &pair(&message_close_rand, &pp.g2));
    let t2_r4 = g2_scale(&blind_issuer_sig.t2, &blinding.r4);
    let u3 = gt_add(&pair(&blind_issuer_sig.r1, &t2_r4), &g1_k);
    let pi_kp = PiKP {
        blind_cred,
        blind_ipk,
        blind_issuer_sig,
        u_1: u1,
        u_2: u2,
        u_3: u3,
        open: sorted,
        len: n,
        message_list: message_open_list,
    };

    let c = challenge(pp, &pi_kp, &u1, &u2, &u3, list);
    let z1 = fr_add(&blinding.r1, &fr_mul(&c, &blinding.alpha));
    let z2 = fr_add(&blinding.r2, &fr_mul(&c, &blinding.beta));
    let z3 = fr_add(&blinding.r3, &fr_mul(&c, &blinding.gamma));
    let z4 = fr_add(&blinding.r4, &fr_mul(&c, &blinding.delta));
    let z5 = respond_plus(&blinding.r5, &c, &message_close_list);
    let pi_zkp = PiZKP { c, z1, z2, z3, z4, z5 };
    proof {
        assert(values(pi_zkp.z5@).len() == pi_zkp.z5@.len());
        assert(values(blinding.r5@).len() == blinding.r5@.len());
    }
    Ok((pi_kp, pi_zkp))
}

/// A presentation of the credential that discloses the attributes at the
/// given indices, in any order, under fresh random scalars. Where the
/// holder's issuer key is not on the list, the first entry's signature is
/// used, and the presentation will not verify.
pub fn present(
    pp: &PublicParameters,
    cred: &groth1::Signature,
    ipk: &groth1::PublicKey,
    message: &Vec<Scalar>,
    policy: &(groth2::PublicKey, Vec<TrustedIssuerCredential>),
    open: &Vec<usize>,
) -> (r: Result<(PiKP, PiZKP), Error>)
    ensures
        match r {
            Ok(proof) => exists|b: Blinding|
                present_error(*pp, message@.len(), open@, policy.1@.len(), b) is None && #[trigger] presents(
                    *pp,
                    *cred,
                    *ipk,
                    message@,
                    open@,
                    policy.1@,
                    b,
                    proof.0,
                    proof.1,
                ),
            Err(e) => if request_error(*pp, message@.len(), open@, policy.1@.len()) is Some {
                e == Error::InvalidParameter
            } else {
                e == Error::RandomnessFailure
            },
        },
        r matches Ok(proof) ==> proof.0.open@.len() == open@.len() && proof.1.z5@.len() + open@.len()
            == message@.len(),
{
    let n = message.len();
    if !check_inputs(n, pp.h.len(), open) || policy.1.len() == 0 {
        return Err(Error::InvalidParameter);
    }
    let close = hidden_indices(open, n);
    let rho1 = match Scalar::random_nonzero() {
        Ok(s) => s,
        Err(e) => {
            return Err(e);
        },
    };
    let rho2 = match Scalar::random_nonzero() {
        Ok(s) => s,
        Err(e) => {
            return Err(e);
        },
    };
    let alpha = match Scalar::random_nonzero() {
        Ok(s) => s,
        Err(e) => {
            return Err(e);
        },
    };
    let beta = match Scalar::random_nonzero() {
        Ok(s) => s,
        Err(e) => {
            return Err(e);
        },
    };
    let gamma = match Scalar::random_nonzero() {
        Ok(s) => s,
        Err(e) => {
            return Err(e);
        },
    };
    let delta = match Scalar::random_nonzero() {
        Ok(s) => s,
        Err(e) => {
            return Err(e);
        },
    };
    let blinding = Blinding {
        rho1,
        rho2,
        alpha,
        beta,
        gamma,
        delta,
        r1: Scalar::random(),
        r2: Scalar::random(),
        r3: Scalar::random(),
        r4: Scalar::random(),
        r5: random_scalars(close.len()),
    };
    present_with(pp, cred, ipk, message, policy, open, &blinding)
}

/// Checks a presentation against the verifier's policy.
pub fn verify_present(
    pp: &PublicParameters,
    policy: &(groth2::PublicKey, Vec<TrustedIssuerCredential>),
    presentation: &(PiKP, PiZKP),
) -> (r: Result<bool, Error>)
    ensures
        r == verify_outcome(*pp, policy.0, policy.1@, presentation.0, presentation.1),
{
    let vpk = &policy.0;
    let list = &policy.1;
    let pi_kp = &presentation.0;
    let pi_zkp = &presentation.1;
    let n = pi_kp.len;
    if !check_disclosure(n, pp.h.len(), &pi_kp.open) || list.len() == 0 {
        return Err(Error::InvalidParameter);
    }
    if pi_kp.message_list.len() != pi_kp.open.len() {
        return Err(Error::InvalidParameter);
    }
    let close_index = hidden_indices(&pi_kp.open, n);
    if pi_zkp.z5.len() != close_index.len() {
        return Err(Error::InvalidParameter);
    }
    if vpk.0.is_identity() {
        return Err(Error::InvalidKey);
    }
    let blind_cred = &pi_kp.blind_cred;
    let blind_issuer_sig = &pi_kp.blind_issuer_sig;
    let minus_c = fr_neg(&pi_zkp.c);
    let minus_z3 = fr_neg(&pi_zkp.z3);
    let k_ipk = g2_scale(&pi_kp.blind_ipk.0, &minus_z3);

    let zero = g1_scale(&pp.g1, &Scalar::from_u64(0));
    let weights = scale_all(&pi_kp.message_list, &minus_c);
    let with_open = g1_combine_at(&zero, &pp.h, &pi_kp.open, &weights);
    let minus_z5 = negate_all(&pi_zkp.z5);
    let k2_element = g1_combine_at(&with_open, &pp.h, &close_index, &minus_z5);

    let g1_k = pair(&pp.g1, &k_ipk);
    let s1_z1 = g1_scale(&blind_cred.s1, &pi_zkp.z1);
    let k1_head = gt_add(&pair(&s1_z1, &blind_cred.r2), &g1_k);
    let k1 = gt_add(&k1_head, &pair(&pp.y1, &g2_scale(&pp.g2, &minus_c)));
    let t1_z2 = g1_scale(&blind_cred.t1, &pi_zkp.z2);
    let k2_head = gt_add(&pair(&t1_z2, &blind_cred.r2), &pair(&pp.y1, &k_ipk));
    let k2 = gt_add(&k2_head, &pair(&k2_element, &pp.g2));
    let t2_z4 = g2_scale(&blind_issuer_sig.t2, &pi_zkp.z4);
    let k3_head = gt_add(&pair(&blind_issuer_sig.r1, &t2_z4), &g1_k);
    let k3 = gt_add(&k3_head, &pair(&vpk.0, &g2_scale(&pp.y2, &minus_c)));

    let c_calculated = challenge(pp, pi_kp, &pi_kp.u_1, &pi_kp.u_2, &pi_kp.u_3, list);
    if !c_calculated.same(&pi_zkp.c) {
        return Err(Error::ProofVerificationFailed(ProofCheck::Challenge));
    }
    if !k1.same(&pi_kp.u_1) {
        return Err(Error::ProofVerificationFailed(ProofCheck::FirstCommitment));
    }
    if !k2.same(&pi_kp.u_2) {
        return Err(Error::ProofVerificationFailed(ProofCheck::SecondCommitment));
    }
    if !k3.same(&pi_kp.u_3) {
        return Err(Error::ProofVerificationFailed(ProofCheck::PolicyBinding));
    }
    let left = pair(&blind_issuer_sig.r1, &blind_issuer_sig.s2);
    let right = gt_add(&pair(&pp.g1, &pp.y2), &pair(&vpk.0, &pp.g2));
    if !left.same(&right) {
        return Err(Error::ProofVerificationFailed(ProofCheck::PolicyBinding));
    }
    Ok(true)
}

/// Whether two presentations hold the same elements, each list in the
/// same order.
pub open spec fn same_presentation(first: (PiKP, PiZKP), second: (PiKP, PiZKP)) -> bool {
    let (kp, zkp) = first;
    let (other_kp, other_zkp) = second;
    &&& kp.blind_cred.r2 == other_kp.blind_cred.r2
    &&& kp.blind_cred.s1 == other_kp.blind_cred.s1
    &&& kp.blind_cred.t1 == other_kp.blind_cred.t1
    &&& kp.blind_ipk.0 == other_kp.blind_ipk.0
    &&& kp.blind_issuer_sig.r1 == other_kp.blind_issuer_sig.r1
    &&& kp.blind_issuer_sig.s2 == other_kp.blind_issuer_sig.s2
    &&& kp.blind_issuer_sig.t2 == other_kp.blind_issuer_sig.t2
    &&& kp.u_1 == other_kp.u_1
    &&& kp.u_2 == other_kp.u_2
    &&& kp.u_3 == other_kp.u_3
    &&& kp.open@ == other_kp.open@
    &&& kp.len == other_kp.len
    &&& kp.message_list@ == other_kp.message_list@
    &&& zkp.c == other_zkp.c
    &&& zkp.z1 == other_zkp.z1
    &&& zkp.z2 == other_zkp.z2
    &&& zkp.z3 == other_zkp.z3
    &&& zkp.z4 == other_zkp.z4
    &&& zkp.z5@ == other_zkp.z5@
}

/// The random scalars determine the presentation: two presentations that
/// the same scalars give for the same request hold the same elements.
pub proof fn lemma_presentation_determined(
    pp: PublicParameters,
    cred: groth1::Signature,
    ipk: groth1::PublicKey,
    m: Seq<Scalar>,
    reveal: Seq<usize>,
    list: Seq<TrustedIssuerCredential>,
    b: Blinding,
    first: (PiKP, PiZKP),
    second: (PiKP, PiZKP),
)
    requires
        presents(pp, cred, ipk, m, reveal, list, b, first.0, first.1),
        presents(pp, cred, ipk, m, reveal, list, b, second.0, second.1),
    ensures
        same_presentation(first, second),
{
    let (kp, zkp) = first;
    let (other_kp, other_zkp) = second;
    crate::group::lemma_g2_determined(kp.blind_cred.r2, other_kp.blind_cred.r2);
    crate::group::lemma_g1_determined(kp.blind_cred.s1, other_kp.blind_cred.s1);
    crate::group::lemma_g1_determined(kp.blind_cred.t1, other_kp.blind_cred.t1);
    crate::group::lemma_g2_determined(kp.blind_ipk.0, other_kp.blind_ipk.0);
    crate::group::lemma_g1_determined(kp.blind_issuer_sig.r1, other_kp.blind_issuer_sig.r1);
    crate::group::lemma_g2_determined(kp.blind_issuer_sig.s2, other_kp.blind_issuer_sig.s2);
    crate::group::lemma_g2_determined(kp.blind_issuer_sig.t2, other_kp.blind_issuer_sig.t2);
    crate::group::lemma_gt_determined(kp.u_1, other_kp.u_1);
    crate::group::lemma_gt_determined(kp.u_2, other_kp.u_2);
    crate::group::lemma_gt_determined(kp.u_3, other_kp.u_3);
    crate::linear::lemma_scalars_determined(kp.message_list@, other_kp.message_list@);
    crate::scalar::lemma_scalar_determined(zkp.c, other_zkp.c);
    crate::scalar::lemma_scalar_determined(zkp.z1, other_zkp.z1);
    crate::scalar::lemma_scalar_determined(zkp.z2, other_zkp.z2);
    crate::scalar::lemma_scalar_determined(zkp.z3, other_zkp.z3);
    crate::scalar::lemma_scalar_determined(zkp.z4, other_zkp.z4);
    crate::linear::lemma_scalars_determined(zkp.z5@, other_zkp.z5@);
}

} // verus!
