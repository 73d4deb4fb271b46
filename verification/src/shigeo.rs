//! Issuer-hiding presentation with BBS signatures on both sides.
//!
//! The issuer signs the holder's attributes with a BBS signature. The
//! verifier signs every issuer key it trusts with a BBS signature in the
//! second group. A presentation randomizes the credential and the issuer
//! key together, proves knowledge of the credential behind the randomized
//! values, and proves in the same way knowledge of the verifier's signature
//! on the hidden issuer key.

use vstd::prelude::*;
use vstd::string::*;

use crate::algebra::{
    all_g1, group_laws, is_g1, is_g2, law_g1_identity, law_g1_mul, law_g1_sum, lemma_g1_cancel_right,
    lemma_g1_mul_injective, law_g2_add_mul, law_g2_assoc, law_g2_mul,
    law_g2_mul_add, law_g2_mul_mul, law_g2_sum, law_pairing_scalar, lemma_fr_basics, lemma_fr_diff_is_sum,
    lemma_fr_distributes, lemma_fr_inverse_absorbed, lemma_fr_prod_assoc, lemma_fr_prod_opp, lemma_fr_units,
    lemma_g1_lincomb_valid, lemma_g2_cancel, lemma_g2_commitment_recomputed, lemma_g2_randomized_signature,
    lemma_g2_swap_last, lemma_g2_swap_middle, lemma_g2_zero, lemma_values_selected,
};
use crate::bbs;
use crate::bbs::SecretKey;
use crate::error::{Error, ProofCheck};
use crate::group::{
    g1_is_identity, g1_mul, g1_sum, g2_add, g2_is_identity, g2_mul, g2_scale, g2_sum, lemma_g1_determined,
    lemma_g2_determined, pair, pairing, G1, G2,
};
use crate::hashing::{hash_to_fr, hash_to_fr_value};
use crate::issuer;
use crate::linear::{
    copy_list, disclosed, g1_views, hidden, hidden_indices, lemma_disclosed, lemma_disclosed_count, lemma_hidden_members,
    lemma_scalars_determined, masked_minus, random_scalars, select_scalars, selected, sorted_indices, values,
};
use crate::scalar::{
    fr_add, fr_diff, fr_inv, fr_mul, fr_neg, fr_opp, fr_prod, fr_sub, fr_sum, lemma_scalar_determined, modulus,
    Scalar,
};
use crate::setup::{generators, message_generators, MAX_ATTRIBUTES};
use crate::sigma::{
    b_bar_point, check_disclosure, check_inputs, commit, d_point, disclosure_error, head, head_bytes,
    input_error,
    lemma_first_commitment_recomputed, lemma_randomized_credential, lemma_second_commitment_recomputed,
    recompute_u1, recompute_u2, respond, u1_check, u1_point, u2_check, u2_point, Commitments, Nonces,
};
use crate::transcript::{absorb_g2, absorb_scalar, encodings};
use crate::verifier_bbs;

verus! {

/// The tag of the presentation challenge.
pub const PRESENTATION_DST: &'static str = "MY_CHALLENGE_GENERATOR_DST_Issuer_Hiding_V1";

/// An issuer key together with the verifier's signature on it.
#[derive(Clone, Copy, Debug)]
pub struct TrustedIssuerCredential {
    pub ipk: issuer::PublicKey,
    pub cred: verifier_bbs::Signature,
}

/// The public part of a presentation.
#[derive(Clone, Debug)]
pub struct PiKP {
    pub a_bar1: G1,
    pub b_bar1: G1,
    pub d_1: G1,
    pub u_1: G1,
    pub u_2: G1,
    pub ipk_rand: G2,
    pub a_bar2: G2,
    pub b_bar2: G2,
    pub d_2: G2,
    pub u_3: G2,
    pub u_4: G2,
    pub c: Scalar,
    pub open: Vec<usize>,
    pub len: usize,
    pub message_list: Vec<Scalar>,
}

/// The responses of a presentation.
#[derive(Clone, Debug)]
pub struct PiZKP {
    pub s1: Scalar,
    pub s2: Scalar,
    pub t1: Scalar,
    pub t2: Scalar,
    pub z1: Scalar,
    pub z2: Scalar,
    pub v1: Vec<Scalar>,
    pub v2: Scalar,
}

/// The random scalars of one presentation.
#[derive(Clone, Debug)]
pub struct Blinding {
    pub r: Scalar,
    pub r_1: Scalar,
    pub r_2: Scalar,
    pub r_3: Scalar,
    pub alpha1: Scalar,
    pub alpha2: Scalar,
    pub beta1: Scalar,
    pub beta2: Scalar,
    pub gamma1: Scalar,
    pub gamma2: Scalar,
    pub delta1: Vec<Scalar>,
    pub delta2: Scalar,
}

/// Whether `ip` holds the generators of `pp` and the first `n` message
/// generators.
pub open spec fn issuer_parameters_of(pp: bbs::PublicParameters, n: nat, ip: issuer::PublicParameters) -> bool {
    &&& ip.g1 == pp.g1
    &&& ip.g2 == pp.g2
    &&& g1_views(ip.h_vec@) == generators(n)
}

/// Whether `creds` pairs every key of `ipks` with a signature of the
/// verifier on it.
pub open spec fn listed(
    pp: bbs::PublicParameters,
    sk: SecretKey,
    ipks: Seq<issuer::PublicKey>,
    creds: Seq<TrustedIssuerCredential>,
) -> bool {
    &&& creds.len() == ipks.len()
    &&& forall|i: int|
        #![trigger creds[i]]
        0 <= i < ipks.len() ==> creds[i].ipk == ipks[i] && verifier_bbs::signs(
            pp.gbar2@,
            sk.0@,
            ipks[i].0@,
            creds[i].cred,
        )
}

/// What the check of one list entry returns.
pub open spec fn entry_outcome(pp: bbs::PublicParameters, vpk: Seq<u8>, entry: TrustedIssuerCredential) -> Result<
    bool,
    Error,
> {
    if g2_is_identity(entry.ipk.0@) {
        Err(Error::InvalidKey)
    } else {
        verifier_bbs::verify_outcome(pp.gbar1@, pp.gbar2@, vpk, entry.ipk.0@, entry.cred.a@, entry.cred.e@)
    }
}

/// The error of the first of the first `n` entries that is rejected.
pub open spec fn first_rejection(
    pp: bbs::PublicParameters,
    vpk: Seq<u8>,
    list: Seq<TrustedIssuerCredential>,
    n: nat,
) -> Option<Error>
    decreases n,
{
    if n == 0 {
        None
    } else {
        match first_rejection(pp, vpk, list, (n - 1) as nat) {
            Some(e) => Some(e),
            None => match entry_outcome(pp, vpk, list[n - 1]) {
                Ok(_) => None,
                Err(e) => Some(e),
            },
        }
    }
}

/// What the check of a trust list returns.
pub open spec fn list_outcome(
    pp: bbs::PublicParameters,
    vpk: verifier_bbs::PublicKey,
    list: Seq<TrustedIssuerCredential>,
) -> Result<bool, Error> {
    if list.len() == 0 {
        Err(Error::InvalidParameter)
    } else {
        match first_rejection(pp, vpk.0@, list, list.len()) {
            Some(e) => Err(e),
            None => Ok(true),
        }
    }
}

/// The index of the last of the first `n` entries that carries the key, or
/// zero where none does.
pub open spec fn chosen(list: Seq<TrustedIssuerCredential>, ipk: Seq<u8>, n: nat) -> int
    decreases n,
{
    if n == 0 {
        0
    } else if list[n - 1].ipk.0@ == ipk {
        n - 1
    } else {
        chosen(list, ipk, (n - 1) as nat)
    }
}

/// The first `n` entries of a trust list as bytes: key, signature point,
/// signature nonce.
pub open spec fn policy_bytes(list: Seq<TrustedIssuerCredential>, n: nat) -> Seq<u8>
    decreases n,
{
    if n == 0 {
        Seq::empty()
    } else {
        policy_bytes(list, (n - 1) as nat) + list[n - 1].ipk.0@ + list[n - 1].cred.a@ + list[n
            - 1].cred.e.encoding()
    }
}

/// The bytes that the challenge of a presentation is hashed from.
pub open spec fn challenge_input(kp: PiKP, list: Seq<TrustedIssuerCredential>) -> Seq<u8> {
    head_bytes(
        generators(kp.len as nat),
        kp.len as nat,
        kp.open@,
        encodings(kp.message_list@),
        kp.a_bar1@,
        kp.b_bar1@,
        kp.d_1@,
        kp.u_1@,
        kp.u_2@,
    ) + kp.ipk_rand@ + kp.a_bar2@ + kp.b_bar2@ + kp.d_2@ + kp.u_3@ + kp.u_4@ + policy_bytes(list, list.len())
}

/// The challenge that belongs to the public part of a presentation.
pub open spec fn challenge_value(kp: PiKP, list: Seq<TrustedIssuerCredential>) -> nat {
    hash_to_fr_value(challenge_input(kp, list), PRESENTATION_DST.spec_bytes())
}

/// Why a request for a presentation is refused, if it is.
pub open spec fn request_error(n: nat, reveal: Seq<usize>, listed: nat) -> Option<Error> {
    if input_error(n, MAX_ATTRIBUTES as nat, reveal) is Some || listed == 0 {
        Some(Error::InvalidParameter)
    } else {
        None
    }
}

/// Why no presentation is made with the given random scalars, if none is.
pub open spec fn present_error(n: nat, reveal: Seq<usize>, listed: nat, b: Blinding) -> Option<Error> {
    if request_error(n, reveal, listed) is Some || b.delta1@.len() != hidden(reveal, n).len() {
        Some(Error::InvalidParameter)
    } else if b.r@ == 0 || b.r_1@ == 0 || b.r_2@ == 0 || b.r_3@ == 0 {
        Some(Error::RandomnessFailure)
    } else {
        None
    }
}

/// Whether `(kp, zkp)` is the presentation that the random scalars give.
pub open spec fn presents(
    pp: bbs::PublicParameters,
    cred: issuer::Signature,
    ipk: issuer::PublicKey,
    m: Seq<Scalar>,
    reveal: Seq<usize>,
    list: Seq<TrustedIssuerCredential>,
    b: Blinding,
    kp: PiKP,
    zkp: PiZKP,
) -> bool {
    let n = m.len();
    let reveal = disclosed(reveal, n);
    let h = generators(n);
    let hide = hidden(reveal, n);
    let entry = list[chosen(list, ipk.0@, list.len())];
    let u = fr_prod(cred.e@, b.r@);
    let c = kp.c@;
    &&& kp.len == n
    &&& kp.open@ == reveal
    &&& kp.message_list@ == selected(m, reveal)
    &&& kp.d_1@ == d_point(pp.g1@, h, values(m), fr_inv(b.r_2@))
    &&& kp.a_bar1@ == g1_mul(
        cred.a@,
        fr_prod(fr_prod(b.r_1@, fr_inv(b.r_2@)), fr_inv(b.r@)),
    )
    &&& kp.b_bar1@ == b_bar_point(kp.d_1@, kp.a_bar1@, b.r_1@, u)
    &&& kp.u_1@ == u1_point(kp.d_1@, kp.a_bar1@, b.alpha1@, b.beta1@)
    &&& kp.u_2@ == u2_point(kp.d_1@, h, hide, b.gamma1@, values(b.delta1@))
    &&& kp.ipk_rand@ == g2_mul(ipk.0@, b.r@)
    &&& kp.d_2@ == g2_mul(g2_sum(pp.gbar2@, ipk.0@), fr_inv(b.r_3@))
    &&& kp.a_bar2@ == g2_mul(entry.cred.a@, fr_prod(b.r@, fr_inv(b.r_3@)))
    &&& kp.b_bar2@ == g2_sum(g2_mul(kp.d_2@, b.r@), g2_mul(kp.a_bar2@, fr_opp(entry.cred.e@)))
    &&& kp.u_3@ == g2_sum(g2_mul(kp.d_2@, b.alpha2@), g2_mul(kp.a_bar2@, b.beta2@))
    &&& kp.u_4@ == g2_sum(g2_mul(kp.d_2@, b.gamma2@), g2_mul(pp.gbar2@, b.delta2@))
    &&& c == challenge_value(kp, list)
    &&& zkp.s1@ == fr_sum(b.alpha1@, fr_prod(c, b.r_1@))
    &&& zkp.t1@ == fr_diff(b.beta1@, fr_prod(c, u))
    &&& zkp.z1@ == fr_sum(b.gamma1@, fr_prod(c, b.r_2@))
    &&& values(zkp.v1@) == masked_minus(values(b.delta1@), c, values(selected(m, hide)))
    &&& zkp.s2@ == fr_sum(b.alpha2@, fr_prod(c, b.r@))
    &&& zkp.t2@ == fr_diff(b.beta2@, fr_prod(c, entry.cred.e@))
    &&& zkp.z2@ == fr_sum(b.gamma2@, fr_prod(fr_prod(c, b.r@), b.r_3@))
    &&& zkp.v2@ == fr_diff(b.delta2@, fr_prod(c, b.r@))
}

/// `D2 * s2 + A_bar2 * t2 - B_bar2 * c`, which an honest proof makes equal
/// to `U3`.
pub open spec fn u3_check(kp: PiKP, zkp: PiZKP) -> Seq<u8> {
    g2_sum(
        g2_sum(g2_mul(kp.d_2@, zkp.s2@), g2_mul(kp.a_bar2@, zkp.t2@)),
        g2_mul(kp.b_bar2@, fr_opp(kp.c@)),
    )
}

/// `D2 * z2 + gbar2 * v2 - ipk_rand * c`, which an honest proof makes equal
/// to `U4`.
pub open spec fn u4_check(pp: bbs::PublicParameters, kp: PiKP, zkp: PiZKP) -> Seq<u8> {
    g2_sum(
        g2_sum(g2_mul(kp.d_2@, zkp.z2@), g2_mul(pp.gbar2@, zkp.v2@)),
        g2_mul(kp.ipk_rand@, fr_opp(kp.c@)),
    )
}

/// Why the shape of a presentation is refused, if it is.
pub open spec fn shape_error(kp: PiKP, zkp: PiZKP, listed: nat) -> Option<Error> {
    if disclosure_error(kp.len as nat, MAX_ATTRIBUTES as nat, kp.open@) is Some || listed == 0
        || kp.message_list@.len() != kp.open@.len()
        || zkp.v1@.len() != hidden(kp.open@, kp.len as nat).len() || g1_is_identity(kp.a_bar1@) {
        Some(Error::InvalidParameter)
    } else {
        None
    }
}

/// What the check of a presentation returns.
pub open spec fn verify_outcome(
    pp: bbs::PublicParameters,
    vpk: verifier_bbs::PublicKey,
    list: Seq<TrustedIssuerCredential>,
    kp: PiKP,
    zkp: PiZKP,
) -> Result<bool, Error> {
    let n = kp.len as nat;
    let h = generators(n);
    let hide = hidden(kp.open@, n);
    if shape_error(kp, zkp, list.len()) is Some {
        Err(Error::InvalidParameter)
    } else if kp.c@ != challenge_value(kp, list) {
        Err(Error::ProofVerificationFailed(ProofCheck::Challenge))
    } else if kp.u_1@ != u1_check(kp.d_1@, kp.a_bar1@, kp.b_bar1@, zkp.s1@, zkp.t1@, kp.c@) {
        Err(Error::ProofVerificationFailed(ProofCheck::FirstCommitment))
    } else if kp.u_2@ != u2_check(
        pp.g1@,
        h,
        kp.d_1@,
        kp.open@,
        values(kp.message_list@),
        hide,
        zkp.z1@,
        values(zkp.v1@),
        kp.c@,
    ) {
        Err(Error::ProofVerificationFailed(ProofCheck::SecondCommitment))
    } else if kp.u_3@ != u3_check(kp, zkp) || kp.u_4@ != u4_check(pp, kp, zkp) {
        Err(Error::ProofVerificationFailed(ProofCheck::PolicyBinding))
    } else if pairing(kp.a_bar1@, kp.ipk_rand@) != pairing(kp.b_bar1@, pp.g2@) {
        Err(Error::ProofVerificationFailed(ProofCheck::PairingBinding))
    } else if pairing(vpk.0@, kp.a_bar2@) != pairing(pp.gbar1@, kp.b_bar2@) {
        Err(Error::ProofVerificationFailed(ProofCheck::PolicyBinding))
    } else {
        Ok(true)
    }
}

/// Derives the parameters and checks that no generator is the identity and
/// that the generators of each group differ from one another.
pub fn par_gen() -> (r: Result<bbs::PublicParameters, Error>)
    ensures
        match r {
            Ok(pp) => bbs::par_gen_error() is None && bbs::derived(pp) && bbs::sound(pp),
            Err(e) => bbs::par_gen_error() == Some(e),
        },
{
    bbs::par_gen()
}

/// The issuer's parameters with the first `n` message generators.
pub fn issuer_parameters(pp: &bbs::PublicParameters, n: usize) -> (r: issuer::PublicParameters)
    ensures
        issuer_parameters_of(*pp, n as nat, r),
        r.h_vec.len() == n,
{
    issuer::PublicParameters { g1: pp.g1, g2: pp.g2, h_vec: message_generators(n) }
}

/// A fresh issuer key pair.
pub fn issuer_key_gen(pp: &bbs::PublicParameters) -> (r: Result<issuer::KeyPair, Error>)
    ensures
        match r {
            Ok(pair) => pair.secret_key.0@ != 0 && pair.public_key.0@ == g2_mul(pp.g2@, pair.secret_key.0@),
            Err(e) => e == Error::RandomnessFailure,
        },
{
    let ip = issuer_parameters(pp, 0);
    issuer::key_gen(&ip)
}

/// Issues a credential on between one and `MAX_ATTRIBUTES` attributes.
pub fn issue(pp: &bbs::PublicParameters, isk: &SecretKey, messages: &Vec<Scalar>) -> (r: Result<
    issuer::Signature,
    Error,
>)
    ensures
        match r {
            Ok(sig) => 1 <= messages@.len() <= MAX_ATTRIBUTES && issuer::sign_error(
                pp.g1@,
                generators(messages@.len()),
                isk.0@,
                values(messages@),
                sig.e@,
            ) is None && sig.a@ == issuer::signature_point(
                pp.g1@,
                generators(messages@.len()),
                isk.0@,
                values(messages@),
                sig.e@,
            ),
            Err(e) => if messages@.len() == 0 || messages@.len() > MAX_ATTRIBUTES {
                e == Error::InvalidParameter
            } else if isk.0@ == 0 {
                e == Error::InvalidKey
            } else {
                e == Error::RandomnessFailure
            },
        },
{
    let n = messages.len();
    if n == 0 || n > MAX_ATTRIBUTES {
        return Err(Error::InvalidParameter);
    }
    let ip = issuer_parameters(pp, n);
    issuer::sign(&ip, isk, messages)
}

/// Checks a credential on between one and `MAX_ATTRIBUTES` attributes.
pub fn verify(
    pp: &bbs::PublicParameters,
    ipk: &issuer::PublicKey,
    messages: &Vec<Scalar>,
    sig: &issuer::Signature,
) -> (r: Result<bool, Error>)
    ensures
        r == if messages@.len() == 0 || messages@.len() > MAX_ATTRIBUTES {
            Err(Error::InvalidParameter)
        } else {
            issuer::verify_outcome(
                pp.g1@,
                pp.g2@,
                generators(messages@.len()),
                ipk.0@,
                values(messages@),
                sig.a@,
                sig.e@,
            )
        },
{
    let n = messages.len();
    if n == 0 || n > MAX_ATTRIBUTES {
        return Err(Error::InvalidParameter);
    }
    let ip = issuer_parameters(pp, n);
    issuer::verify(&ip, ipk, messages, sig)
}

/// A fresh verifier key pair.
pub fn verifier_key_gen(pp: &bbs::PublicParameters) -> (r: Result<verifier_bbs::KeyPair, Error>)
    ensures
        match r {
            Ok(pair) => pair.secret_key.0@ != 0 && pair.public_key.0@ == g1_mul(
                pp.gbar1@,
                pair.secret_key.0@,
            ) && pair.public_key.1@ == g2_mul(pp.gbar2@, pair.secret_key.0@),
            Err(e) => e == Error::RandomnessFailure,
        },
{
    let vp = verifier_bbs::PublicParameters { gbar1: pp.gbar1, gbar2: pp.gbar2 };
    verifier_bbs::key_gen(&vp)
}

/// Signs every key of a non-empty list of issuer keys.
pub fn issue_list(
    pp: &bbs::PublicParameters,
    key: &verifier_bbs::KeyPair,
    message_list: &Vec<issuer::PublicKey>,
) -> (r: Result<(verifier_bbs::PublicKey, Vec<TrustedIssuerCredential>), Error>)
    ensures
        match r {
            Ok(policy) => message_list@.len() > 0 && !issuer::lists_identity(message_list@) && policy.0
                == key.public_key && listed(*pp, key.secret_key, message_list@, policy.1@),
            Err(e) => if message_list@.len() == 0 {
                e == Error::InvalidParameter
            } else if issuer::lists_identity(message_list@) || key.secret_key.0@ == 0 {
                e == Error::InvalidKey
            } else {
                e == Error::RandomnessFailure
            },
        },
{
    if message_list.len() == 0 {
        return Err(Error::InvalidParameter);
    }
    if !issuer::check_keys(message_list) {
        return Err(Error::InvalidKey);
    }
    let vp = verifier_bbs::PublicParameters { gbar1: pp.gbar1, gbar2: pp.gbar2 };
    let mut credential: Vec<TrustedIssuerCredential> = Vec::new();
    let mut i: usize = 0;
    while i < message_list.len()
        invariant
            i <= message_list.len(),
            !issuer::lists_identity(message_list@),
            vp.gbar2 == pp.gbar2,
            credential.len() == i,
            forall|j: int|
                #![trigger credential[j]]
                0 <= j < i ==> credential[j].ipk == message_list[j] && verifier_bbs::signs(
                    pp.gbar2@,
                    key.secret_key.0@,
                    message_list[j].0@,
                    credential[j].cred,
                ),
        decreases message_list.len() - i,
    {
        let ipk = message_list[i];
        match verifier_bbs::sign(&vp, &key.secret_key, &ipk.0) {
            Ok(signature) => {
                credential.push(TrustedIssuerCredential { ipk, cred: signature });
            },
            Err(e) => {
                return Err(e);
            },
        }
        i += 1;
    }
    Ok((key.public_key, credential))
}

/// Checks one entry of a trust list under the verifier's key.
pub fn check_entry(
    pp: &bbs::PublicParameters,
    vpk: &verifier_bbs::PublicKey,
    entry: &TrustedIssuerCredential,
) -> (r: Result<bool, Error>)
    ensures
        r == entry_outcome(*pp, vpk.0@, *entry),
{
    if entry.ipk.0.is_identity() {
        return Err(Error::InvalidKey);
    }
    let vp = verifier_bbs::PublicParameters { gbar1: pp.gbar1, gbar2: pp.gbar2 };
    verifier_bbs::verify(&vp, vpk, &entry.ipk.0, &entry.cred)
}

/// Checks every entry of a trust list under the verifier's key.
pub fn verify_list(
    pp: &bbs::PublicParameters,
    policy: &(verifier_bbs::PublicKey, Vec<TrustedIssuerCredential>),
) -> (r: Result<bool, Error>)
    ensures
        r == list_outcome(*pp, policy.0, policy.1@),
{
    let vpk = &policy.0;
    let list = &policy.1;
    if list.len() == 0 {
        return Err(Error::InvalidParameter);
    }
    let mut i: usize = 0;
    while i < list.len()
        invariant
            i <= list.len(),
            *list == policy.1,
            *vpk == policy.0,
            first_rejection(*pp, vpk.0@, list@, i as nat) is None,
        decreases list.len() - i,
    {
        match check_entry(pp, vpk, &list[i]) {
            Ok(_) => {},
            Err(e) => {
                proof {
                    assert(first_rejection(*pp, vpk.0@, list@, (i + 1) as nat) == Some(e));
                    lemma_rejection_stays(*pp, vpk.0@, list@, (i + 1) as nat, list@.len());
                }
                return Err(e);
            },
        }
        i += 1;
    }
    Ok(true)
}

/// A trust list is accepted exactly when it is not empty and every entry
/// is accepted.
pub proof fn lemma_list_accepted(pp: bbs::PublicParameters, vpk: verifier_bbs::PublicKey, list: Seq<TrustedIssuerCredential>)
    ensures
        list_outcome(pp, vpk, list) is Ok <==> (list.len() > 0 && forall|i: int|
            0 <= i < list.len() ==> (#[trigger] entry_outcome(pp, vpk.0@, list[i])) is Ok),
{
    lemma_no_rejection(pp, vpk.0@, list, list.len());
}

/// None of the first `n` entries is rejected exactly when each of them is
/// accepted.
pub proof fn lemma_no_rejection(pp: bbs::PublicParameters, vpk: Seq<u8>, list: Seq<TrustedIssuerCredential>, n: nat)
    requires
        n <= list.len(),
    ensures
        first_rejection(pp, vpk, list, n) is None <==> (forall|i: int|
            0 <= i < n ==> (#[trigger] entry_outcome(pp, vpk, list[i])) is Ok),
    decreases n,
{
    if n > 0 {
        lemma_no_rejection(pp, vpk, list, (n - 1) as nat);
        if first_rejection(pp, vpk, list, n) is None {
            assert forall|i: int| 0 <= i < n implies (#[trigger] entry_outcome(pp, vpk, list[i])) is Ok by {
                if i == n - 1 {
                    assert(entry_outcome(pp, vpk, list[n - 1]) is Ok);
                }
            }
        } else {
            if first_rejection(pp, vpk, list, (n - 1) as nat) is None {
                assert(entry_outcome(pp, vpk, list[n - 1]) is Err);
            }
        }
    }
}

/// Once an entry is rejected, the error stays as more entries are looked at.
pub proof fn lemma_rejection_stays(
    pp: bbs::PublicParameters,
    vpk: Seq<u8>,
    list: Seq<TrustedIssuerCredential>,
    k: nat,
    n: nat,
)
    requires
        k <= n,
        first_rejection(pp, vpk, list, k) is Some,
    ensures
        first_rejection(pp, vpk, list, n) == first_rejection(pp, vpk, list, k),
    decreases n,
{
    if k < n {
        lemma_rejection_stays(pp, vpk, list, k, (n - 1) as nat);
    }
}

/// The position of the entry that a holder with the given issuer key uses.
pub(crate) fn choose_entry(list: &Vec<TrustedIssuerCredential>, ipk: &issuer::PublicKey) -> (r: usize)
    requires
        list.len() > 0,
    ensures
        r == chosen(list@, ipk.0@, list@.len()),
        r < list.len(),
{
    let mut found: usize = 0;
    let mut i: usize = 0;
    while i < list.len()
        invariant
            i <= list.len(),
            list.len() > 0,
            found == chosen(list@, ipk.0@, i as nat),
            found < list.len(),
        decreases list.len() - i,
    {
        if list[i].ipk.0.same(&ipk.0) {
            found = i;
        }
        i += 1;
    }
    found
}

/// Appends the entries of a trust list to a challenge input.
pub fn absorb_policy(buf: &mut Vec<u8>, list: &Vec<TrustedIssuerCredential>)
    ensures
        final(buf)@ == old(buf)@ + policy_bytes(list@, list@.len()),
{
    let mut i: usize = 0;
    while i < list.len()
        invariant
            i <= list.len(),
            buf@ == old(buf)@ + policy_bytes(list@, i as nat),
        decreases list.len() - i,
    {
        absorb_g2(buf, &list[i].ipk.0);
        absorb_g2(buf, &list[i].cred.a);
        absorb_scalar(buf, &list[i].cred.e);
        i += 1;
        assert(buf@ =~= old(buf)@ + policy_bytes(list@, i as nat));
    }
}

/// The challenge that belongs to the public part of a presentation.
pub(crate) fn challenge(h: &Vec<G1>, kp: &PiKP, list: &Vec<TrustedIssuerCredential>) -> (r: Scalar)
    requires
        h.len() == kp.len,
        g1_views(h@) == generators(kp.len as nat),
    ensures
        r@ == challenge_value(*kp, list@),
{
    let cm = Commitments { a_bar: kp.a_bar1, b_bar: kp.b_bar1, d: kp.d_1, u1: kp.u_1, u2: kp.u_2 };
    let mut buf = head(h, kp.len, &kp.open, &kp.message_list, &cm);
    absorb_g2(&mut buf, &kp.ipk_rand);
    absorb_g2(&mut buf, &kp.a_bar2);
    absorb_g2(&mut buf, &kp.b_bar2);
    absorb_g2(&mut buf, &kp.d_2);
    absorb_g2(&mut buf, &kp.u_3);
    absorb_g2(&mut buf, &kp.u_4);
    absorb_policy(&mut buf, list);
    assert(buf@ =~= challenge_input(*kp, list@));
    hash_to_fr(buf.as_slice(), PRESENTATION_DST.as_bytes())
}

/// The presentation that the given random scalars give, with the disclosed
/// indices sorted. The indices may come in any order; none may come twice.
pub fn present_with(
    pp: &bbs::PublicParameters,
    cred: &issuer::Signature,
    ipk: &issuer::PublicKey,
    message_list: &Vec<Scalar>,
    reveal_index: &Vec<usize>,
    policy: &(verifier_bbs::PublicKey, Vec<TrustedIssuerCredential>),
    blinding: &Blinding,
) -> (r: Result<(PiKP, PiZKP), Error>)
    ensures
        match r {
            Ok(proof) => present_error(message_list@.len(), reveal_index@, policy.1@.len(), *blinding) is None
                && presents(
                *pp,
                *cred,
                *ipk,
                message_list@,
                reveal_index@,
                policy.1@,
                *blinding,
                proof.0,
                proof.1,
            ),
            Err(e) => present_error(message_list@.len(), reveal_index@, policy.1@.len(), *blinding) == Some(e),
        },
        r matches Ok(proof) ==> proof.0.open@.len() == reveal_index@.len() && proof.1.v1@.len() + reveal_index@.len()
            == message_list@.len(),
{
    let list = &policy.1;
    let n = message_list.len();
    if !check_inputs(n, MAX_ATTRIBUTES, reveal_index) || list.len() == 0 {
        return Err(Error::InvalidParameter);
    }
    let sorted = sorted_indices(reveal_index, n);
    let hide = hidden_indices(&sorted, n);
    proof {
        lemma_disclosed(reveal_index@, n as nat);
        lemma_disclosed_count(reveal_index@, n as nat);
    }
    if blinding.delta1.len() != hide.len() {
        return Err(Error::InvalidParameter);
    }
    let r_inv = match blinding.r.invert() {
        Some(i) => i,
        None => {
            return Err(Error::RandomnessFailure);
        },
    };
    if blinding.r_1.is_zero() {
        return Err(Error::RandomnessFailure);
    }
    let r_2_inv = match blinding.r_2.invert() {
        Some(i) => i,
        None => {
            return Err(Error::RandomnessFailure);
        },
    };
    let r_3_inv = match blinding.r_3.invert() {
        Some(i) => i,
        None => {
            return Err(Error::RandomnessFailure);
        },
    };
    let h = message_generators(n);
    let entry = list[choose_entry(list, ipk)];
    let shown = select_scalars(message_list, &sorted);
    let hidden_m = select_scalars(message_list, &hide);

    let f0 = fr_mul(&blinding.r_1, &r_2_inv);
    let factor = fr_mul(&f0, &r_inv);
    let u = fr_mul(&cred.e, &blinding.r);
    let nonces = Nonces {
        r1: blinding.r_1,
        r2: blinding.r_2,
        alpha: blinding.alpha1,
        beta: blinding.beta1,
        gamma: blinding.gamma1,
        delta: copy_list(&blinding.delta1),
    };
    let cm = commit(&pp.g1, &h, &cred.a, &factor, &u, message_list, &hide, &r_2_inv, &nonces);

    let ipk_rand = g2_scale(&ipk.0, &blinding.r);
    let base2 = g2_add(&pp.gbar2, &ipk.0);
    let d_2 = g2_scale(&base2, &r_3_inv);
    let f2 = fr_mul(&blinding.r, &r_3_inv);
    let a_bar2 = g2_scale(&entry.cred.a, &f2);
    let minus_ev = fr_neg(&entry.cred.e);
    let d2_r = g2_scale(&d_2, &blinding.r);
    let a2_e = g2_scale(&a_bar2, &minus_ev);
    let b_bar2 = g2_add(&d2_r, &a2_e);
    let d2_alpha = g2_scale(&d_2, &blinding.alpha2);
    let a2_beta = g2_scale(&a_bar2, &blinding.beta2);
    let u_3 = g2_add(&d2_alpha, &a2_beta);
    let d2_gamma = g2_scale(&d_2, &blinding.gamma2);
    let g_delta = g2_scale(&pp.gbar2, &blinding.delta2);
    let u_4 = g2_add(&d2_gamma, &g_delta);

    let mut kp = PiKP {
        a_bar1: cm.a_bar,
        b_bar1: cm.b_bar,
        d_1: cm.d,
        u_1: cm.u1,
        u_2: cm.u2,
        ipk_rand,
        a_bar2,
        b_bar2,
        d_2,
        u_3,
        u_4,
        c: Scalar::from_u64(0),
        open: sorted,
        len: n,
        message_list: shown,
    };
    let c = challenge(&h, &kp, list);
    proof {
        let before = kp;
        assert(challenge_input(before, list@) == challenge_input(
            PiKP { c, ..before },
            list@,
        ));
    }
    kp.c = c;

    let rs = respond(&c, &nonces, &u, &hidden_m);
    let c_r = fr_mul(&c, &blinding.r);
    let s2 = fr_add(&blinding.alpha2, &c_r);
    let c_ev = fr_mul(&c, &entry.cred.e);
    let t2 = fr_sub(&blinding.beta2, &c_ev);
    let c_r_r3 = fr_mul(&c_r, &blinding.r_3);
    let z2 = fr_add(&blinding.gamma2, &c_r_r3);
    let v2 = fr_sub(&blinding.delta2, &c_r);
    let zkp = PiZKP { s1: rs.s, s2, t1: rs.t, t2, z1: rs.z, z2, v1: rs.v, v2 };
    proof {
        assert(values(zkp.v1@).len() == zkp.v1@.len());
        assert(values(blinding.delta1@).len() == blinding.delta1@.len());
    }
    Ok((kp, zkp))
}

/// A presentation of the credential that discloses the attributes at the
/// given indices, in any order, under fresh random scalars. Where the
/// holder's issuer key is not on the list, the first entry's signature is
/// used, and the presentation will not verify.
pub fn present(
    pp: &bbs::PublicParameters,
    cred: &issuer::Signature,
    ipk: &issuer::PublicKey,
    message_list: &Vec<Scalar>,
    reveal_index: &Vec<usize>,
    policy: &(verifier_bbs::PublicKey, Vec<TrustedIssuerCredential>),
) -> (r: Result<(PiKP, PiZKP), Error>)
    ensures
        match r {
            Ok(proof) => exists|b: Blinding|
                present_error(message_list@.len(), reveal_index@, policy.1@.len(), b) is None && #[trigger] presents(
                    *pp,
                    *cred,
                    *ipk,
                    message_list@,
                    reveal_index@,
                    policy.1@,
                    b,
                    proof.0,
                    proof.1,
                ),
            Err(e) => if request_error(message_list@.len(), reveal_index@, policy.1@.len()) is Some {
                e == Error::InvalidParameter
            } else {
                e == Error::RandomnessFailure
            },
        },
        r matches Ok(proof) ==> proof.0.open@.len() == reveal_index@.len() && proof.1.v1@.len() + reveal_index@.len()
            == message_list@.len(),
{
    let n = message_list.len();
    if !check_inputs(n, MAX_ATTRIBUTES, reveal_index) || policy.1.len() == 0 {
        return Err(Error::InvalidParameter);
    }
    let hide = hidden_indices(reveal_index, n);
    let r = match Scalar::random_nonzero() {
        Ok(s) => s,
        Err(e) => {
            return Err(e);
        },
    };
    let r_1 = match Scalar::random_nonzero() {
        Ok(s) => s,
        Err(e) => {
            return Err(e);
        },
    };
    let r_2 = match Scalar::random_nonzero() {
        Ok(s) => s,
        Err(e) => {
            return Err(e);
        },
    };
    let r_3 = match Scalar::random_nonzero() {
        Ok(s) => s,
        Err(e) => {
            return Err(e);
        },
    };
    let blinding = Blinding {
        r,
        r_1,
        r_2,
        r_3,
        alpha1: Scalar::random(),
        alpha2: Scalar::random(),
        beta1: Scalar::random(),
        beta2: Scalar::random(),
        gamma1: Scalar::random(),
        gamma2: Scalar::random(),
        delta1: random_scalars(hide.len()),
        delta2: Scalar::random(),
    };
    present_with(pp, cred, ipk, message_list, reveal_index, policy, &blinding)
}

/// Checks a presentation against the verifier's policy.
pub fn verify_presentation(
    pp: &bbs::PublicParameters,
    policy: &(verifier_bbs::PublicKey, Vec<TrustedIssuerCredential>),
    pikp: &PiKP,
    pizkp: &PiZKP,
) -> (r: Result<bool, Error>)
    ensures
        r == verify_outcome(*pp, policy.0, policy.1@, *pikp, *pizkp),
{
    let vpk = &policy.0;
    let list = &policy.1;
    let n = pikp.len;
    if !check_disclosure(n, MAX_ATTRIBUTES, &pikp.open) || list.len() == 0 {
        return Err(Error::InvalidParameter);
    }
    if pikp.message_list.len() != pikp.open.len() {
        return Err(Error::InvalidParameter);
    }
    let hide = hidden_indices(&pikp.open, n);
    if pizkp.v1.len() != hide.len() {
        return Err(Error::InvalidParameter);
    }
    if pikp.a_bar1.is_identity() {
        return Err(Error::InvalidParameter);
    }
    let h = message_generators(n);
    let c = challenge(&h, pikp, list);
    if !c.same(&pikp.c) {
        return Err(Error::ProofVerificationFailed(ProofCheck::Challenge));
    }
    let u1 = recompute_u1(&pikp.d_1, &pikp.a_bar1, &pikp.b_bar1, &pizkp.s1, &pizkp.t1, &pikp.c);
    if !u1.same(&pikp.u_1) {
        return Err(Error::ProofVerificationFailed(ProofCheck::FirstCommitment));
    }
    let u2 = recompute_u2(
        &pp.g1,
        &h,
        &pikp.d_1,
        &pikp.open,
        &pikp.message_list,
        &hide,
        &pizkp.z1,
        &pizkp.v1,
        &pikp.c,
    );
    if !u2.same(&pikp.u_2) {
        return Err(Error::ProofVerificationFailed(ProofCheck::SecondCommitment));
    }
    let minus_c = fr_neg(&pikp.c);
    let d2_s = g2_scale(&pikp.d_2, &pizkp.s2);
    let a2_t = g2_scale(&pikp.a_bar2, &pizkp.t2);
    let b2_c = g2_scale(&pikp.b_bar2, &minus_c);
    let sum3 = g2_add(&d2_s, &a2_t);
    let u3 = g2_add(&sum3, &b2_c);
    let d2_z = g2_scale(&pikp.d_2, &pizkp.z2);
    let g_v = g2_scale(&pp.gbar2, &pizkp.v2);
    let i_c = g2_scale(&pikp.ipk_rand, &minus_c);
    let sum4 = g2_add(&d2_z, &g_v);
    let u4 = g2_add(&sum4, &i_c);
    if !u3.same(&pikp.u_3) || !u4.same(&pikp.u_4) {
        return Err(Error::ProofVerificationFailed(ProofCheck::PolicyBinding));
    }
    let left1 = pair(&pikp.a_bar1, &pikp.ipk_rand);
    let right1 = pair(&pikp.b_bar1, &pp.g2);
    if !left1.same(&right1) {
        return Err(Error::ProofVerificationFailed(ProofCheck::PairingBinding));
    }
    let left2 = pair(&vpk.0, &pikp.a_bar2);
    let right2 = pair(&pp.gbar1, &pikp.b_bar2);
    if !left2.same(&right2) {
        return Err(Error::ProofVerificationFailed(ProofCheck::PolicyBinding));
    }
    Ok(true)
}

/// Whether the generators of the parameters are points.
pub open spec fn parameters_valid(pp: bbs::PublicParameters) -> bool {
    &&& is_g1(pp.g1@)
    &&& is_g2(pp.g2@)
    &&& is_g1(pp.gbar1@)
    &&& is_g2(pp.gbar2@)
}

/// Whether the random scalars are below the modulus.
pub open spec fn blinding_valid(b: Blinding) -> bool {
    &&& b.r@ < modulus()
    &&& b.r_1@ < modulus()
    &&& b.r_2@ < modulus()
    &&& b.r_3@ < modulus()
    &&& b.alpha1@ < modulus()
    &&& b.alpha2@ < modulus()
    &&& b.beta1@ < modulus()
    &&& b.beta2@ < modulus()
    &&& b.gamma1@ < modulus()
    &&& b.gamma2@ < modulus()
    &&& b.delta2@ < modulus()
}

/// Under the laws of a bilinear group, the trust list that an honest
/// verifier signs is accepted under the verifier's key, where no listed
/// key and no generator of the verifier is the identity.
pub proof fn lemma_honest_list_verifies(
    pp: bbs::PublicParameters,
    vsk: SecretKey,
    vpk: verifier_bbs::PublicKey,
    ipks: Seq<issuer::PublicKey>,
    list: Seq<TrustedIssuerCredential>,
)
    requires
        group_laws(),
        parameters_valid(pp),
        !g1_is_identity(pp.gbar1@),
        vsk.0@ < modulus(),
        vpk.0@ == g1_mul(pp.gbar1@, vsk.0@),
        ipks.len() > 0,
        listed(pp, vsk, ipks, list),
        forall|i: int|
            0 <= i < ipks.len() ==> is_g2((#[trigger] ipks[i]).0@) && !g2_is_identity(ipks[i].0@) && list[i].cred.e@
                < modulus(),
    ensures
        list_outcome(pp, vpk, list) == Ok::<bool, Error>(true),
{
    assert forall|i: int| 0 <= i < list.len() implies (#[trigger] entry_outcome(pp, vpk.0@, list[i])) is Ok by {
        assert(ipks[i].0@ == list[i].ipk.0@);
        verifier_bbs::lemma_signature_verifies(pp.gbar1@, pp.gbar2@, vsk.0@, ipks[i].0@, list[i].cred.e@);
    }
    lemma_list_accepted(pp, vpk, list);
}

/// Under the laws of a bilinear group, the fourth commitment that a
/// verifier recomputes from honest responses is the holder's.
pub proof fn lemma_fourth_commitment_recomputed(
    gbar2: Seq<u8>,
    ipk: Seq<u8>,
    r: nat,
    r_3: nat,
    gamma: nat,
    delta: nat,
    c: nat,
)
    requires
        group_laws(),
        is_g2(gbar2),
        is_g2(ipk),
        r < modulus(),
        0 < r_3 < modulus(),
        c < modulus(),
    ensures
        ({
            let d_2 = g2_mul(g2_sum(gbar2, ipk), fr_inv(r_3));
            g2_sum(
                g2_sum(
                    g2_mul(d_2, fr_sum(gamma, fr_prod(fr_prod(c, r), r_3))),
                    g2_mul(gbar2, fr_diff(delta, fr_prod(c, r))),
                ),
                g2_mul(g2_mul(ipk, r), fr_opp(c)),
            ) == g2_sum(g2_mul(d_2, gamma), g2_mul(gbar2, delta))
        }),
{
    let base = g2_sum(gbar2, ipk);
    let d_2 = g2_mul(base, fr_inv(r_3));
    let cr = fr_prod(c, r);
    law_g2_sum(gbar2, ipk);
    law_g2_mul(base, fr_inv(r_3));
    lemma_fr_basics(c, r);
    // D2 * (gamma + cr * r3) = D2 * gamma + (gbar2 * cr + ipk * cr)
    let x1 = g2_mul(d_2, gamma);
    let x2 = g2_mul(gbar2, cr);
    let x3 = g2_mul(ipk, cr);
    law_g2_mul_add(d_2, gamma, fr_prod(cr, r_3));
    law_g2_mul_mul(base, fr_inv(r_3), fr_prod(cr, r_3));
    lemma_fr_inverse_absorbed(cr, r_3);
    law_g2_add_mul(gbar2, ipk, cr);
    // gbar2 * (delta - cr) = gbar2 * delta + gbar2 * -cr
    let x4 = g2_mul(gbar2, delta);
    let x5 = g2_mul(gbar2, fr_opp(cr));
    lemma_fr_diff_is_sum(delta, cr);
    law_g2_mul_add(gbar2, delta, fr_opp(cr));
    // (ipk * r) * -c = ipk * -cr
    let x6 = g2_mul(ipk, fr_opp(cr));
    law_g2_mul_mul(ipk, r, fr_opp(c));
    lemma_fr_prod_opp(r, c);
    lemma_fr_basics(r, c);
    law_g2_mul(d_2, gamma);
    law_g2_mul(gbar2, cr);
    law_g2_mul(ipk, cr);
    law_g2_mul(gbar2, delta);
    law_g2_mul(gbar2, fr_opp(cr));
    law_g2_mul(ipk, fr_opp(cr));
    law_g2_sum(x2, x3);
    law_g2_sum(x1, x4);
    // ((x1 + (x2 + x3)) + (x4 + x5)) + x6 = x1 + x4
    lemma_g2_swap_middle(x1, g2_sum(x2, x3), x4, x5);
    lemma_g2_swap_last(x2, x3, x5);
    lemma_g2_cancel(gbar2, cr);
    lemma_g2_cancel(ipk, cr);
    lemma_g2_zero(x3, gbar2);
    law_g2_assoc(g2_sum(x1, x4), x3, x6);
    lemma_g2_zero(g2_sum(x1, x4), ipk);
}

/// Under the laws of a bilinear group, the presentation that an honest
/// holder makes is accepted, where the parameters are points, the holder's
/// credential was issued under the issuer key that the holder names, and
/// the entry of the trust list that the holder uses carries that key with
/// the verifier's signature on it.
pub proof fn lemma_honest_presentation_verifies(
    pp: bbs::PublicParameters,
    isk: SecretKey,
    ipk: issuer::PublicKey,
    cred: issuer::Signature,
    m: Seq<Scalar>,
    reveal: Seq<usize>,
    vsk: SecretKey,
    vpk: verifier_bbs::PublicKey,
    list: Seq<TrustedIssuerCredential>,
    b: Blinding,
    kp: PiKP,
    zkp: PiZKP,
)
    requires
        group_laws(),
        parameters_valid(pp),
        all_g1(generators(m.len())),
        blinding_valid(b),
        isk.0@ < modulus(),
        vsk.0@ < modulus(),
        cred.e@ < modulus(),
        kp.c@ < modulus(),
        ipk.0@ == g2_mul(pp.g2@, isk.0@),
        vpk.0@ == g1_mul(pp.gbar1@, vsk.0@),
        issuer::sign_error(pp.g1@, generators(m.len()), isk.0@, values(m), cred.e@) is None,
        cred.a@ == issuer::signature_point(pp.g1@, generators(m.len()), isk.0@, values(m), cred.e@),
        list.len() > 0,
        ({
            let entry = list[chosen(list, ipk.0@, list.len())];
            entry.ipk.0@ == ipk.0@ && entry.cred.e@ < modulus() && verifier_bbs::signs(
                pp.gbar2@,
                vsk.0@,
                ipk.0@,
                entry.cred,
            )
        }),
        present_error(m.len(), reveal, list.len(), b) is None,
        presents(pp, cred, ipk, m, reveal, list, b, kp, zkp),
    ensures
        verify_outcome(pp, vpk, list, kp, zkp) == Ok::<bool, Error>(true),
{
    let g1 = pp.g1@;
    let g2 = pp.g2@;
    let gbar1 = pp.gbar1@;
    let gbar2 = pp.gbar2@;
    let n = m.len();
    lemma_disclosed(reveal, n);
    let reveal = disclosed(reveal, n);
    let h = generators(n);
    let hide = hidden(reveal, n);
    let entry = list[chosen(list, ipk.0@, list.len())];
    let x = isk.0@;
    let e = cred.e@;
    let x_v = vsk.0@;
    let e_v = entry.cred.e@;
    let c = kp.c@;
    let s = fr_sum(x, e);
    let s_v = fr_sum(x_v, e_v);
    let r_inv = fr_inv(b.r@);
    let r_2_inv = fr_inv(b.r_2@);
    let r_3_inv = fr_inv(b.r_3@);
    let factor = fr_prod(fr_prod(b.r_1@, r_2_inv), r_inv);
    let u = fr_prod(e, b.r@);
    let commitment = issuer::commitment(g1, h, values(m));
    assert(values(m).len() == n);
    lemma_fr_basics(x, e);
    lemma_fr_basics(x_v, e_v);
    lemma_fr_basics(e, b.r@);
    lemma_g1_lincomb_valid(g1, h, values(m), n);
    law_g1_mul(commitment, fr_inv(s));
    law_g1_mul(commitment, r_2_inv);
    law_g1_mul(cred.a@, factor);
    law_g2_mul(g2, x);

    // the shape of the presentation
    lemma_hidden_members(reveal, n);
    assert forall|k: int| 0 <= k < hide.len() implies hide[k] < n by {
        assert(hide.contains(hide[k]));
    }
    lemma_values_selected(m, reveal);
    lemma_values_selected(m, hide);
    assert(values(zkp.v1@).len() == zkp.v1@.len());
    assert(values(b.delta1@).len() == b.delta1@.len());
    lemma_fr_units(b.r@, b.r_2@);
    lemma_fr_units(b.r_2@, b.r_3@);
    lemma_fr_units(b.r_3@, b.r@);
    lemma_fr_units(b.r_1@, r_2_inv);
    lemma_fr_units(fr_prod(b.r_1@, r_2_inv), r_inv);
    law_g1_identity(cred.a@, factor);

    // the first two commitments
    lemma_first_commitment_recomputed(kp.d_1@, kp.a_bar1@, b.r_1@, u, b.alpha1@, b.beta1@, c);
    lemma_second_commitment_recomputed(g1, h, values(m), reveal, b.r_2@, b.gamma1@, values(b.delta1@), c);

    // the third and the fourth commitment
    let base = g2_sum(gbar2, ipk.0@);
    law_g2_sum(gbar2, ipk.0@);
    law_g2_mul(base, r_3_inv);
    law_g2_mul(base, fr_inv(s_v));
    law_g2_mul(entry.cred.a@, fr_prod(b.r@, r_3_inv));
    lemma_g2_commitment_recomputed(kp.d_2@, kp.a_bar2@, b.r@, e_v, b.alpha2@, b.beta2@, c);
    lemma_fourth_commitment_recomputed(gbar2, ipk.0@, b.r@, b.r_3@, b.gamma2@, b.delta2@, c);

    // the randomized credential pairs with the randomized issuer key
    let k = fr_prod(fr_inv(s), factor);
    let y = fr_prod(x, b.r@);
    assert(fr_sum(fr_prod(k, y), fr_prod(k, u)) == fr_prod(r_2_inv, b.r_1@)) by {
        let half = fr_prod(b.r_1@, r_2_inv);
        lemma_fr_basics(b.r_1@, r_2_inv);
        lemma_fr_distributes(k, y, u);
        lemma_fr_distributes(b.r@, x, e);
        // k * (s * r) = ((s^-1 * factor) * s) * r = factor * r = half
        lemma_fr_prod_assoc(k, s, b.r@);
        lemma_fr_basics(factor, s);
        lemma_fr_inverse_absorbed(factor, s);
        lemma_fr_inverse_absorbed(half, b.r@);
    }
    lemma_randomized_credential(commitment, fr_inv(s), factor, r_2_inv, b.r_1@, u, y);
    law_g2_mul_mul(g2, x, b.r@);
    law_pairing_scalar(kp.a_bar1@, g2, y);

    // the randomized list signature pairs with the verifier's key
    let factor_v = fr_prod(b.r@, r_3_inv);
    let k_v = fr_prod(fr_inv(s_v), factor_v);
    assert(fr_sum(fr_prod(k_v, x_v), fr_prod(k_v, e_v)) == fr_prod(r_3_inv, b.r@)) by {
        lemma_fr_basics(b.r@, r_3_inv);
        lemma_fr_distributes(k_v, x_v, e_v);
        lemma_fr_basics(factor_v, s_v);
        lemma_fr_inverse_absorbed(factor_v, s_v);
    }
    lemma_g2_randomized_signature(base, fr_inv(s_v), factor_v, r_3_inv, b.r@, e_v, x_v);
    law_pairing_scalar(gbar1, kp.a_bar2@, x_v);
}

/// Whether two presentations hold the same elements, each list in the
/// same order.
pub open spec fn same_presentation(first: (PiKP, PiZKP), second: (PiKP, PiZKP)) -> bool {
    let (kp, zkp) = first;
    let (other_kp, other_zkp) = second;
    &&& kp.a_bar1 == other_kp.a_bar1
    &&& kp.b_bar1 == other_kp.b_bar1
    &&& kp.d_1 == other_kp.d_1
    &&& kp.u_1 == other_kp.u_1
    &&& kp.u_2 == other_kp.u_2
    &&& kp.ipk_rand == other_kp.ipk_rand
    &&& kp.a_bar2 == other_kp.a_bar2
    &&& kp.b_bar2 == other_kp.b_bar2
    &&& kp.d_2 == other_kp.d_2
    &&& kp.u_3 == other_kp.u_3
    &&& kp.u_4 == other_kp.u_4
    &&& kp.c == other_kp.c
    &&& kp.open@ == other_kp.open@
    &&& kp.len == other_kp.len
    &&& kp.message_list@ == other_kp.message_list@
    &&& zkp.s1 == other_zkp.s1
    &&& zkp.s2 == other_zkp.s2
    &&& zkp.t1 == other_zkp.t1
    &&& zkp.t2 == other_zkp.t2
    &&& zkp.z1 == other_zkp.z1
    &&& zkp.z2 == other_zkp.z2
    &&& zkp.v1@ == other_zkp.v1@
    &&& zkp.v2 == other_zkp.v2
}

/// The random scalars determine the presentation: two presentations that
/// the same scalars give for the same request hold the same elements.
pub proof fn lemma_presentation_determined(
    pp: bbs::PublicParameters,
    cred: issuer::Signature,
    ipk: issuer::PublicKey,
    m: Seq<Scalar>,
    reveal: Seq<usize>,
    list: Seq<TrustedIssuerCredential>,
    b: Blinding,
    first: (PiKP, PiZKP),
    second: (PiKP, PiZKP),
)
    requires
        presents(pp, cred, ipk, m, reveal, list, b, first.0, first.1),
        presents(pp, cred, ipk, m, reveal, list, b, second.0, second.1),
    ensures
        same_presentation(first, second),
{
    let (kp, zkp) = first;
    let (other_kp, other_zkp) = second;
    lemma_g1_determined(kp.a_bar1, other_kp.a_bar1);
    lemma_g1_determined(kp.b_bar1, other_kp.b_bar1);
    lemma_g1_determined(kp.d_1, other_kp.d_1);
    lemma_g1_determined(kp.u_1, other_kp.u_1);
    lemma_g1_determined(kp.u_2, other_kp.u_2);
    lemma_g2_determined(kp.ipk_rand, other_kp.ipk_rand);
    lemma_g2_determined(kp.d_2, other_kp.d_2);
    lemma_g2_determined(kp.a_bar2, other_kp.a_bar2);
    lemma_g2_determined(kp.b_bar2, other_kp.b_bar2);
    lemma_g2_determined(kp.u_3, other_kp.u_3);
    lemma_g2_determined(kp.u_4, other_kp.u_4);
    lemma_scalar_determined(kp.c, other_kp.c);
    lemma_scalar_determined(zkp.s1, other_zkp.s1);
    lemma_scalar_determined(zkp.s2, other_zkp.s2);
    lemma_scalar_determined(zkp.t1, other_zkp.t1);
    lemma_scalar_determined(zkp.t2, other_zkp.t2);
    lemma_scalar_determined(zkp.z1, other_zkp.z1);
    lemma_scalar_determined(zkp.z2, other_zkp.z2);
    lemma_scalar_determined(zkp.v2, other_zkp.v2);
    lemma_scalars_determined(zkp.v1@, other_zkp.v1@);
}

/// Under the laws of a bilinear group, an accepted presentation whose first
/// response is changed is rejected at the first commitment, where `D` is
/// not the identity.
pub proof fn lemma_changed_response_rejected(
    pp: bbs::PublicParameters,
    vpk: verifier_bbs::PublicKey,
    list: Seq<TrustedIssuerCredential>,
    kp: PiKP,
    zkp: PiZKP,
    changed: PiZKP,
)
    requires
        group_laws(),
        is_g1(kp.d_1@),
        is_g1(kp.a_bar1@),
        is_g1(kp.b_bar1@),
        !g1_is_identity(kp.d_1@),
        zkp.s1@ < modulus(),
        changed.s1@ < modulus(),
        verify_outcome(pp, vpk, list, kp, zkp) == Ok::<bool, Error>(true),
        changed.s1@ != zkp.s1@,
        changed.t1 == zkp.t1,
        changed.v1@.len() == zkp.v1@.len(),
    ensures
        verify_outcome(pp, vpk, list, kp, changed) == Err::<bool, Error>(
            Error::ProofVerificationFailed(ProofCheck::FirstCommitment),
        ),
{
    let d = kp.d_1@;
    let before = g1_mul(d, zkp.s1@);
    let after = g1_mul(d, changed.s1@);
    let second = g1_mul(kp.a_bar1@, zkp.t1@);
    let third = g1_mul(kp.b_bar1@, fr_opp(kp.c@));
    law_g1_mul(d, zkp.s1@);
    law_g1_mul(d, changed.s1@);
    law_g1_mul(kp.a_bar1@, zkp.t1@);
    law_g1_mul(kp.b_bar1@, fr_opp(kp.c@));
    law_g1_sum(before, second);
    law_g1_sum(after, second);
    if g1_sum(g1_sum(after, second), third) == g1_sum(g1_sum(before, second), third) {
        lemma_g1_cancel_right(g1_sum(after, second), g1_sum(before, second), third);
        lemma_g1_cancel_right(after, before, second);
        lemma_g1_mul_injective(d, changed.s1@, zkp.s1@);
    }
}

} // verus!
