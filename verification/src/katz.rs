//! Issuer-hiding presentation against an aggregate policy.
//!
//! The verifier picks secrets `a`, `b` and publishes `s = g2 * a` and, for
//! every trusted issuer key, `t_i = (ipk_i + g2 * b) * a`, with a proof that
//! the values have this form. A holder adds `s * r` and the `t_i` of all
//! other issuers into one point, which the verifier, who knows `a` and `b`,
//! can turn back into the holder's issuer key shifted by `g2 * r`.

use vstd::prelude::*;
use vstd::string::*;

use crate::algebra::{
    all_g1, all_g2, group_laws, is_g1, is_g2, law_g1_identity, law_g1_mul, law_g2_add_mul, law_g2_assoc,
    law_g2_identity, law_g2_mul, law_g2_mul_add, law_g2_mul_mul, law_g2_sum, law_g2_unit, law_inverse,
    law_pairing_scalar, lemma_fr_basics, lemma_fr_count_step, lemma_fr_diff_is_sum, lemma_fr_distributes,
    lemma_fr_inverse_absorbed, lemma_fr_opp_cancels, lemma_fr_prod_assoc, lemma_fr_prod_opp, lemma_fr_small,
    lemma_fr_sum_assoc, lemma_fr_units, lemma_g1_lincomb_valid, lemma_g2_cancel, lemma_g2_sum_all_shift,
    lemma_g2_sum_all_valid, lemma_g2_swap_last, lemma_g2_swap_middle, lemma_g2_zero, lemma_values_selected,
};
use crate::bbs::SecretKey;
use crate::error::{Error, ProofCheck};
use crate::group::{g1_is_identity, g1_mul, g2_add, g2_is_identity, g2_mul, g2_scale, g2_sum, pair, pairing, G1, G2};
use crate::hashing::{hash_to_fr, hash_to_fr_value};
use crate::issuer;
use crate::linear::{
    copy_list, disclosed, g1_views, g2_accumulate, g2_sum_all, g2_views, hidden, hidden_indices, lemma_disclosed, lemma_disclosed_count,
    lemma_hidden_members, masked_minus, random_scalars, select_scalars, selected, sorted_indices, values,
};
use crate::scalar::{fr_add, fr_diff, fr_inv, fr_mul, fr_neg, fr_opp, fr_prod, fr_sub, fr_sum, modulus, Scalar};
use crate::sigma::{
    b_bar_point, check_disclosure, check_inputs, commit, d_point, disclosure_error, head, head_bytes,
    input_error,
    lemma_first_commitment_recomputed, lemma_randomized_credential, lemma_second_commitment_recomputed,
    recompute_u1, recompute_u2, respond, u1_check, u1_point, u2_check, u2_point, Commitments, Nonces,
};
use crate::transcript::{absorb_g2, absorb_g2_list, concat, encodings};

verus! {

/// The tag of the policy challenge.
pub const POLICY_DST: &'static str = "POLICY_CHALLENGE_GENERATOR_DST_V1";

/// The tag of the presentation challenge.
pub const PRESENTATION_DST: &'static str = "MY_CHALLENGE_GENERATOR_DST_Issuer_Hiding_V1";

/// The proof that a policy is well formed.
#[derive(Clone, Copy, Debug)]
pub struct PiPolicy {
    pub c: Scalar,
    pub s: Scalar,
    pub t: Scalar,
}

/// The verifier's policy secrets.
#[derive(Clone, Copy, Debug)]
pub struct PolicySecretKey {
    pub a: Scalar,
    pub b: Scalar,
}

/// The published policy.
#[derive(Clone, Debug)]
pub struct PolicyPublicKey {
    pub ipks: Vec<issuer::PublicKey>,
    pub s: G2,
    pub t: Vec<G2>,
    pub pi: PiPolicy,
}

/// A policy with its secrets.
#[derive(Clone, Debug)]
pub struct PolicyKeyPair {
    pub secret_key: PolicySecretKey,
    pub public_key: PolicyPublicKey,
}

/// The random scalars of one policy.
#[derive(Clone, Copy, Debug)]
pub struct PolicyNonces {
    pub a: Scalar,
    pub b: Scalar,
    pub alpha: Scalar,
    pub beta: Scalar,
}

/// The public part of a presentation.
#[derive(Clone, Debug)]
pub struct PiKP {
    pub a_bar: G1,
    pub b_bar: G1,
    pub d: G1,
    pub sigma_tilde: G2,
    pub open: Vec<usize>,
    pub len: usize,
    pub message_list: Vec<Scalar>,
}

/// The challenge and the responses of a presentation.
#[derive(Clone, Debug)]
pub struct PiZKP {
    pub c: Scalar,
    pub s: Scalar,
    pub t: Scalar,
    pub z: Scalar,
    pub v: Vec<Scalar>,
}

/// The random scalars of one presentation.
#[derive(Clone, Debug)]
pub struct Blinding {
    pub r: Scalar,
    pub nonces: Nonces,
}

/// The encodings of the keys of a list.
pub open spec fn key_views(ipks: Seq<issuer::PublicKey>) -> Seq<Seq<u8>> {
    ipks.map_values(|k: issuer::PublicKey| k.0@)
}

/// The points `t_i = (ipk_i + g2 * b) * a`.
pub open spec fn policy_points(g2: Seq<u8>, ipks: Seq<Seq<u8>>, a: nat, b: nat) -> Seq<Seq<u8>> {
    Seq::new(ipks.len(), |i: int| g2_mul(g2_sum(ipks[i], g2_mul(g2, b)), a))
}

/// The commitments `t_i * alpha + g2 * beta`.
pub open spec fn policy_commitments(g2: Seq<u8>, t: Seq<Seq<u8>>, alpha: nat, beta: nat) -> Seq<Seq<u8>> {
    Seq::new(t.len(), |i: int| g2_sum(g2_mul(t[i], alpha), g2_mul(g2, beta)))
}

/// The points `t_i * s + g2 * t - ipk_i * c`, which an honest policy proof
/// makes equal to the commitments.
pub open spec fn policy_recomputed(
    g2: Seq<u8>,
    ipks: Seq<Seq<u8>>,
    t: Seq<Seq<u8>>,
    pi_s: nat,
    pi_t: nat,
    c: nat,
) -> Seq<Seq<u8>> {
    Seq::new(t.len(), |i: int| g2_sum(g2_sum(g2_mul(t[i], pi_s), g2_mul(g2, pi_t)), g2_mul(ipks[i], fr_opp(c))))
}

/// The challenge of a policy proof: hashed from the keys, `s`, the `t_i`
/// and the commitments.
pub open spec fn policy_challenge_value(
    ipks: Seq<Seq<u8>>,
    s: Seq<u8>,
    t: Seq<Seq<u8>>,
    u1: Seq<u8>,
    u2: Seq<Seq<u8>>,
) -> nat {
    hash_to_fr_value(
        concat(ipks, ipks.len()) + s + concat(t, t.len()) + u1 + concat(u2, u2.len()),
        POLICY_DST.spec_bytes(),
    )
}

/// Why a list of issuer keys is refused, if it is: it is empty, or one of
/// its keys is the identity.
pub open spec fn keys_error(ipks: Seq<issuer::PublicKey>) -> Option<Error> {
    if ipks.len() == 0 {
        Some(Error::InvalidParameter)
    } else if issuer::lists_identity(ipks) {
        Some(Error::InvalidKey)
    } else {
        None
    }
}

/// Why no policy is made with the given random scalars, if none is.
pub open spec fn policy_error(ipks: Seq<issuer::PublicKey>, nonces: PolicyNonces) -> Option<Error> {
    if keys_error(ipks) is Some {
        keys_error(ipks)
    } else if nonces.a@ == 0 {
        Some(Error::RandomnessFailure)
    } else {
        None
    }
}

/// Whether `pair` is the policy that the random scalars give.
pub open spec fn policy_of(
    pp: issuer::PublicParameters,
    ipks: Seq<issuer::PublicKey>,
    nonces: PolicyNonces,
    pair: PolicyKeyPair,
) -> bool {
    let g2 = pp.g2@;
    let pk = pair.public_key;
    let t = g2_views(pk.t@);
    let c = pk.pi.c@;
    &&& pair.secret_key.a == nonces.a
    &&& pair.secret_key.b == nonces.b
    &&& pk.ipks@ == ipks
    &&& pk.s@ == g2_mul(g2, nonces.a@)
    &&& t == policy_points(g2, key_views(ipks), nonces.a@, nonces.b@)
    &&& c == policy_challenge_value(
        key_views(ipks),
        pk.s@,
        t,
        g2_mul(pk.s@, nonces.alpha@),
        policy_commitments(g2, t, nonces.alpha@, nonces.beta@),
    )
    &&& pk.pi.s@ == fr_sum(nonces.alpha@, fr_prod(c, fr_inv(nonces.a@)))
    &&& pk.pi.t@ == fr_diff(nonces.beta@, fr_prod(c, nonces.b@))
}

/// Why the shape of a policy is refused, if it is.
pub open spec fn policy_shape_error(ppk: PolicyPublicKey) -> Option<Error> {
    if ppk.ipks@.len() == 0 || ppk.ipks@.len() != ppk.t@.len() {
        Some(Error::InvalidParameter)
    } else {
        None
    }
}

/// What the audit of a policy returns.
pub open spec fn audit_outcome(pp: issuer::PublicParameters, ppk: PolicyPublicKey) -> Result<bool, Error> {
    let g2 = pp.g2@;
    let t = g2_views(ppk.t@);
    if policy_shape_error(ppk) is Some {
        Err(Error::InvalidParameter)
    } else if g2_is_identity(ppk.s@) {
        Err(Error::InvalidKey)
    } else if ppk.pi.c@ != policy_challenge_value(
        key_views(ppk.ipks@),
        ppk.s@,
        t,
        g2_sum(g2_mul(ppk.s@, ppk.pi.s@), g2_mul(g2, fr_opp(ppk.pi.c@))),
        policy_recomputed(g2, key_views(ppk.ipks@), t, ppk.pi.s@, ppk.pi.t@, ppk.pi.c@),
    ) {
        Err(Error::ProofVerificationFailed(ProofCheck::Challenge))
    } else {
        Ok(true)
    }
}

/// `init` plus the `t_i` of the first `n` keys that differ from `ipk`.
pub open spec fn others_sum(init: Seq<u8>, ipks: Seq<Seq<u8>>, t: Seq<Seq<u8>>, ipk: Seq<u8>, n: nat) -> Seq<u8>
    decreases n,
{
    if n == 0 {
        init
    } else if ipks[n - 1] == ipk {
        others_sum(init, ipks, t, ipk, (n - 1) as nat)
    } else {
        g2_sum(others_sum(init, ipks, t, ipk, (n - 1) as nat), t[n - 1])
    }
}

/// The challenge of a presentation: hashed from the shared part, then `s`
/// and the `t_i` of the policy.
pub open spec fn challenge_value(
    h: Seq<Seq<u8>>,
    kp: PiKP,
    u1: Seq<u8>,
    u2: Seq<u8>,
    s: Seq<u8>,
    t: Seq<Seq<u8>>,
) -> nat {
    hash_to_fr_value(
        head_bytes(
            h,
            kp.len as nat,
            kp.open@,
            encodings(kp.message_list@),
            kp.a_bar@,
            kp.b_bar@,
            kp.d@,
            u1,
            u2,
        ) + s + concat(t, t.len()),
        PRESENTATION_DST.spec_bytes(),
    )
}

/// Why a request for a presentation is refused, if it is.
pub open spec fn request_error(n: nat, limit: nat, reveal: Seq<usize>, ppk: PolicyPublicKey) -> Option<Error> {
    if input_error(n, limit, reveal) is Some || policy_shape_error(ppk) is Some {
        Some(Error::InvalidParameter)
    } else {
        None
    }
}

/// Why no presentation is made with the given random scalars, if none is.
pub open spec fn present_error(
    n: nat,
    limit: nat,
    reveal: Seq<usize>,
    ppk: PolicyPublicKey,
    b: Blinding,
) -> Option<Error> {
    if request_error(n, limit, reveal, ppk) is Some || b.nonces.delta@.len() != hidden(reveal, n).len() {
        Some(Error::InvalidParameter)
    } else if b.nonces.r1@ == 0 || b.nonces.r2@ == 0 {
        Some(Error::RandomnessFailure)
    } else {
        None
    }
}

/// Whether `(kp, zkp)` is the presentation that the random scalars give.
pub open spec fn presents(
    pp: issuer::PublicParameters,
    cred: issuer::Signature,
    ipk: issuer::PublicKey,
    m: Seq<Scalar>,
    reveal: Seq<usize>,
    ppk: PolicyPublicKey,
    b: Blinding,
    kp: PiKP,
    zkp: PiZKP,
) -> bool {
    let n = m.len();
    let reveal = disclosed(reveal, n);
    let h = g1_views(pp.h_vec@);
    let hide = hidden(reveal, n);
    let t = g2_views(ppk.t@);
    let u = fr_sum(cred.e@, b.r@);
    let c = zkp.c@;
    let nonces = b.nonces;
    &&& kp.len == n
    &&& kp.open@ == reveal
    &&& kp.message_list@ == selected(m, reveal)
    &&& kp.sigma_tilde@ == others_sum(g2_mul(ppk.s@, b.r@), key_views(ppk.ipks@), t, ipk.0@, t.len())
    &&& kp.d@ == d_point(pp.g1@, h, values(m), fr_inv(nonces.r2@))
    &&& kp.a_bar@ == g1_mul(cred.a@, fr_prod(nonces.r1@, fr_inv(nonces.r2@)))
    &&& kp.b_bar@ == b_bar_point(kp.d@, kp.a_bar@, nonces.r1@, u)
    &&& c == challenge_value(
        h,
        kp,
        u1_point(kp.d@, kp.a_bar@, nonces.alpha@, nonces.beta@),
        u2_point(kp.d@, h, hide, nonces.gamma@, values(nonces.delta@)),
        ppk.s@,
        t,
    )
    &&& zkp.s@ == fr_sum(nonces.alpha@, fr_prod(c, nonces.r1@))
    &&& zkp.t@ == fr_diff(nonces.beta@, fr_prod(c, u))
    &&& zkp.z@ == fr_sum(nonces.gamma@, fr_prod(c, nonces.r2@))
    &&& values(zkp.v@) == masked_minus(values(nonces.delta@), c, values(selected(m, hide)))
}

/// Why the shape of a presentation is refused, if it is.
pub open spec fn shape_error(limit: nat, ppk: PolicyPublicKey, kp: PiKP, zkp: PiZKP) -> Option<Error> {
    if disclosure_error(kp.len as nat, limit, kp.open@) is Some || policy_shape_error(ppk) is Some
        || kp.message_list@.len() != kp.open@.len()
        || zkp.v@.len() != hidden(kp.open@, kp.len as nat).len() || g1_is_identity(kp.a_bar@) {
        Some(Error::InvalidParameter)
    } else {
        None
    }
}

/// The challenge that a verifier recomputes from a presentation.
pub open spec fn recomputed_challenge(pp: issuer::PublicParameters, ppk: PolicyPublicKey, kp: PiKP, zkp: PiZKP) -> nat {
    let h = g1_views(pp.h_vec@);
    challenge_value(
        h,
        kp,
        u1_check(kp.d@, kp.a_bar@, kp.b_bar@, zkp.s@, zkp.t@, zkp.c@),
        u2_check(
            pp.g1@,
            h,
            kp.d@,
            kp.open@,
            values(kp.message_list@),
            hidden(kp.open@, kp.len as nat),
            zkp.z@,
            values(zkp.v@),
            zkp.c@,
        ),
        ppk.s@,
        g2_views(ppk.t@),
    )
}

/// The point that the verifier pairs with `A_bar`: the holder's point times
/// `-a^-1`, plus `g2 * ((k - 1) * b)`, plus all `k` issuer keys.
pub open spec fn issuer_witness(g2: Seq<u8>, pair: PolicyKeyPair, sigma_tilde: Seq<u8>) -> Seq<u8> {
    let ipks = key_views(pair.public_key.ipks@);
    g2_sum_all(
        g2_sum(
            g2_mul(sigma_tilde, fr_opp(fr_inv(pair.secret_key.a@))),
            g2_mul(g2, fr_prod((ipks.len() - 1) as nat, pair.secret_key.b@)),
        ),
        ipks,
        ipks.len(),
    )
}

/// What the check of a presentation returns.
pub open spec fn verify_outcome(pp: issuer::PublicParameters, pair: PolicyKeyPair, kp: PiKP, zkp: PiZKP) -> Result<
    bool,
    Error,
> {
    let ppk = pair.public_key;
    if shape_error(pp.h_vec@.len(), ppk, kp, zkp) is Some {
        Err(Error::InvalidParameter)
    } else if pair.secret_key.a@ == 0 {
        Err(Error::InvalidKey)
    } else if zkp.c@ != recomputed_challenge(pp, ppk, kp, zkp) {
        Err(Error::ProofVerificationFailed(ProofCheck::Challenge))
    } else if pairing(kp.a_bar@, issuer_witness(pp.g2@, pair, kp.sigma_tilde@)) != pairing(kp.b_bar@, pp.g2@) {
        Err(Error::ProofVerificationFailed(ProofCheck::PolicyBinding))
    } else {
        Ok(true)
    }
}

/// Derives the parameters and checks that no generator is the identity and
/// that the generators of the first group differ from one another.
pub fn par_gen() -> (r: Result<issuer::PublicParameters, Error>)
    ensures
        match r {
            Ok(pp) => issuer::par_gen_error() is None && issuer::derived(pp) && issuer::sound(pp),
            Err(e) => issuer::par_gen_error() == Some(e),
        },
{
    issuer::par_gen()
}

/// A fresh issuer key pair.
pub fn issuer_key_gen(pp: &issuer::PublicParameters) -> (r: Result<issuer::KeyPair, Error>)
    ensures
        match r {
            Ok(pair) => pair.secret_key.0@ != 0 && pair.public_key.0@ == g2_mul(pp.g2@, pair.secret_key.0@),
            Err(e) => e == Error::RandomnessFailure,
        },
{
    issuer::key_gen(pp)
}

/// Issues a credential on at least one attribute.
pub fn issue(pp: &issuer::PublicParameters, isk: &SecretKey, messages: &Vec<Scalar>) -> (r: Result<
    issuer::Signature,
    Error,
>)
    ensures
        match r {
            Ok(sig) => messages@.len() >= 1 && issuer::signs(*pp, *isk, messages@, sig),
            Err(e) => if messages@.len() == 0 || messages@.len() > pp.h_vec@.len() {
                e == Error::InvalidParameter
            } else if isk.0@ == 0 {
                e == Error::InvalidKey
            } else {
                e == Error::RandomnessFailure
            },
        },
{
    if messages.len() == 0 {
        return Err(Error::InvalidParameter);
    }
    issuer::sign(pp, isk, messages)
}

/// Checks a credential on at least one attribute.
pub fn verify(
    pp: &issuer::PublicParameters,
    ipk: &issuer::PublicKey,
    messages: &Vec<Scalar>,
    sig: &issuer::Signature,
) -> (r: Result<bool, Error>)
    ensures
        r == if messages@.len() == 0 {
            Err(Error::InvalidParameter)
        } else {
            issuer::verify_outcome(
                pp.g1@,
                pp.g2@,
                g1_views(pp.h_vec@),
                ipk.0@,
                values(messages@),
                sig.a@,
                sig.e@,
            )
        },
{
    if messages.len() == 0 {
        return Err(Error::InvalidParameter);
    }
    issuer::verify(pp, ipk, messages, sig)
}

/// The points of a list of keys.
pub fn key_points(ipks: &Vec<issuer::PublicKey>) -> (r: Vec<G2>)
    ensures
        r.len() == ipks.len(),
        g2_views(r@) == key_views(ipks@),
{
    let mut out: Vec<G2> = Vec::new();
    let mut i: usize = 0;
    while i < ipks.len()
        invariant
            i <= ipks.len(),
            out.len() == i,
            forall|j: int| 0 <= j < i ==> out[j] == ipks[j].0,
        decreases ipks.len() - i,
    {
        out.push(ipks[i].0);
        i += 1;
    }
    assert(g2_views(out@) =~= key_views(ipks@));
    out
}

/// The points `t_i = (ipk_i + g2 * b) * a`.
pub fn make_policy_points(g2: &G2, keys: &Vec<G2>, a: &Scalar, b: &Scalar) -> (r: Vec<G2>)
    ensures
        r.len() == keys.len(),
        g2_views(r@) == policy_points(g2@, g2_views(keys@), a@, b@),
{
    let shift = g2_scale(g2, b);
    let mut out: Vec<G2> = Vec::new();
    let mut i: usize = 0;
    while i < keys.len()
        invariant
            i <= keys.len(),
            out.len() == i,
            shift@ == g2_mul(g2@, b@),
            forall|j: int| 0 <= j < i ==> out[j]@ == g2_mul(g2_sum(keys[j]@, g2_mul(g2@, b@)), a@),
        decreases keys.len() - i,
    {
        let shifted = g2_add(&keys[i], &shift);
        out.push(g2_scale(&shifted, a));
        i += 1;
    }
    assert(g2_views(out@) =~= policy_points(g2@, g2_views(keys@), a@, b@));
    out
}

/// The commitments `t_i * alpha + g2 * beta`.
pub fn make_policy_commitments(g2: &G2, t: &Vec<G2>, alpha: &Scalar, beta: &Scalar) -> (r: Vec<G2>)
    ensures
        r.len() == t.len(),
        g2_views(r@) == policy_commitments(g2@, g2_views(t@), alpha@, beta@),
{
    let shift = g2_scale(g2, beta);
    let mut out: Vec<G2> = Vec::new();
    let mut i: usize = 0;
    while i < t.len()
        invariant
            i <= t.len(),
            out.len() == i,
            shift@ == g2_mul(g2@, beta@),
            forall|j: int| 0 <= j < i ==> out[j]@ == g2_sum(g2_mul(t[j]@, alpha@), g2_mul(g2@, beta@)),
        decreases t.len() - i,
    {
        let scaled = g2_scale(&t[i], alpha);
        out.push(g2_add(&scaled, &shift));
        i += 1;
    }
    assert(g2_views(out@) =~= policy_commitments(g2@, g2_views(t@), alpha@, beta@));
    out
}

/// The points `t_i * s + g2 * t - ipk_i * c`.
pub(crate) fn recompute_policy_commitments(g2: &G2, keys: &Vec<G2>, t: &Vec<G2>, pi: &PiPolicy) -> (r: Vec<G2>)
    requires
        keys.len() == t.len(),
    ensures
        r.len() == t.len(),
        g2_views(r@) == policy_recomputed(g2@, g2_views(keys@), g2_views(t@), pi.s@, pi.t@, pi.c@),
{
    let shift = g2_scale(g2, &pi.t);
    let minus_c = fr_neg(&pi.c);
    let mut out: Vec<G2> = Vec::new();
    let mut i: usize = 0;
    while i < t.len()
        invariant
            i <= t.len(),
            keys.len() == t.len(),
            out.len() == i,
            shift@ == g2_mul(g2@, pi.t@),
            minus_c@ == fr_opp(pi.c@),
            forall|j: int|
                0 <= j < i ==> out[j]@ == g2_sum(
                    g2_sum(g2_mul(t[j]@, pi.s@), g2_mul(g2@, pi.t@)),
                    g2_mul(keys[j]@, fr_opp(pi.c@)),
                ),
        decreases t.len() - i,
    {
        let scaled = g2_scale(&t[i], &pi.s);
        let sum = g2_add(&scaled, &shift);
        let key_c = g2_scale(&keys[i], &minus_c);
        out.push(g2_add(&sum, &key_c));
        i += 1;
    }
    assert(g2_views(out@) =~= policy_recomputed(g2@, g2_views(keys@), g2_views(t@), pi.s@, pi.t@, pi.c@));
    out
}

/// The challenge of a policy proof.
pub fn policy_challenge(keys: &Vec<G2>, s: &G2, t: &Vec<G2>, u1: &G2, u2: &Vec<G2>) -> (r: Scalar)
    ensures
        r@ == policy_challenge_value(g2_views(keys@), s@, g2_views(t@), u1@, g2_views(u2@)),
{
    let mut buf: Vec<u8> = Vec::new();
    absorb_g2_list(&mut buf, keys, keys.len());
    absorb_g2(&mut buf, s);
    absorb_g2_list(&mut buf, t, t.len());
    absorb_g2(&mut buf, u1);
    absorb_g2_list(&mut buf, u2, u2.len());
    assert(g2_views(keys@).len() == keys@.len());
    assert(g2_views(t@).len() == t@.len());
    assert(g2_views(u2@).len() == u2@.len());
    assert(buf@ =~= concat(g2_views(keys@), keys@.len()) + s@ + concat(g2_views(t@), t@.len()) + u1@ + concat(
        g2_views(u2@),
        u2@.len(),
    ));
    hash_to_fr(buf.as_slice(), POLICY_DST.as_bytes())
}

/// The policy on a non-empty list of issuer keys that the given random
/// scalars give.
pub fn set_policy_with(pp: &issuer::PublicParameters, ipk_list: &Vec<issuer::PublicKey>, nonces: &PolicyNonces) -> (r:
    Result<PolicyKeyPair, Error>)
    ensures
        match r {
            Ok(pair) => policy_error(ipk_list@, *nonces) is None && policy_of(*pp, ipk_list@, *nonces, pair),
            Err(e) => policy_error(ipk_list@, *nonces) == Some(e),
        },
        r matches Ok(pair) ==> pair.secret_key.a@ != 0 && pair.public_key.ipks@.len() == ipk_list@.len(),
{
    if ipk_list.len() == 0 {
        return Err(Error::InvalidParameter);
    }
    if !issuer::check_keys(ipk_list) {
        return Err(Error::InvalidKey);
    }
    let a_inv = match nonces.a.invert() {
        Some(i) => i,
        None => {
            return Err(Error::RandomnessFailure);
        },
    };
    let keys = key_points(ipk_list);
    let s = g2_scale(&pp.g2, &nonces.a);
    let t = make_policy_points(&pp.g2, &keys, &nonces.a, &nonces.b);
    let u1 = g2_scale(&s, &nonces.alpha);
    let u2 = make_policy_commitments(&pp.g2, &t, &nonces.alpha, &nonces.beta);
    let c = policy_challenge(&keys, &s, &t, &u1, &u2);
    let c_a = fr_mul(&c, &a_inv);
    let c_b = fr_mul(&c, &nonces.b);
    let pi = PiPolicy { c, s: fr_add(&nonces.alpha, &c_a), t: fr_sub(&nonces.beta, &c_b) };
    let public_key = PolicyPublicKey { ipks: copy_list(ipk_list), s, t, pi };
    Ok(PolicyKeyPair { secret_key: PolicySecretKey { a: nonces.a, b: nonces.b }, public_key })
}

/// A policy on a non-empty list of issuer keys, under fresh secrets.
pub fn set_policy(pp: &issuer::PublicParameters, ipk_list: &Vec<issuer::PublicKey>) -> (r: Result<
    PolicyKeyPair,
    Error,
>)
    ensures
        match r {
            Ok(pair) => exists|nonces: PolicyNonces|
                policy_error(ipk_list@, nonces) is None && #[trigger] policy_of(*pp, ipk_list@, nonces, pair),
            Err(e) => if keys_error(ipk_list@) is Some {
                keys_error(ipk_list@) == Some(e)
            } else {
                e == Error::RandomnessFailure
            },
        },
        r matches Ok(pair) ==> pair.secret_key.a@ != 0 && pair.public_key.ipks@.len() == ipk_list@.len(),
{
    if ipk_list.len() == 0 {
        return Err(Error::InvalidParameter);
    }
    if !issuer::check_keys(ipk_list) {
        return Err(Error::InvalidKey);
    }
    let a = match Scalar::random_nonzero() {
        Ok(s) => s,
        Err(e) => {
            return Err(e);
        },
    };
    let nonces = PolicyNonces { a, b: Scalar::random(), alpha: Scalar::random(), beta: Scalar::random() };
    set_policy_with(pp, ipk_list, &nonces)
}

/// Checks that a published policy is well formed.
pub fn audit_policy(pp: &issuer::PublicParameters, ppk: &PolicyPublicKey) -> (r: Result<bool, Error>)
    ensures
        r == audit_outcome(*pp, *ppk),
{
    if ppk.ipks.len() == 0 || ppk.ipks.len() != ppk.t.len() {
        return Err(Error::InvalidParameter);
    }
    if ppk.s.is_identity() {
        return Err(Error::InvalidKey);
    }
    let keys = key_points(&ppk.ipks);
    let minus_c = fr_neg(&ppk.pi.c);
    let s_s = g2_scale(&ppk.s, &ppk.pi.s);
    let g_c = g2_scale(&pp.g2, &minus_c);
    let u1 = g2_add(&s_s, &g_c);
    let u2 = recompute_policy_commitments(&pp.g2, &keys, &ppk.t, &ppk.pi);
    let c = policy_challenge(&keys, &ppk.s, &ppk.t, &u1, &u2);
    if !c.same(&ppk.pi.c) {
        return Err(Error::ProofVerificationFailed(ProofCheck::Challenge));
    }
    Ok(true)
}

/// `init` plus the `t_i` of all keys that differ from `ipk`.
pub(crate) fn add_others(init: &G2, keys: &Vec<G2>, t: &Vec<G2>, ipk: &G2) -> (r: G2)
    requires
        keys.len() == t.len(),
    ensures
        r@ == others_sum(init@, g2_views(keys@), g2_views(t@), ipk@, t@.len()),
{
    let mut acc = *init;
    let mut i: usize = 0;
    while i < t.len()
        invariant
            i <= t.len(),
            keys.len() == t.len(),
            acc@ == others_sum(init@, g2_views(keys@), g2_views(t@), ipk@, i as nat),
        decreases t.len() - i,
    {
        if !keys[i].same(ipk) {
            acc = g2_add(&acc, &t[i]);
        }
        i += 1;
    }
    acc
}

/// The challenge of a presentation.
pub(crate) fn challenge(h: &Vec<G1>, kp: &PiKP, u1: &G1, u2: &G1, s: &G2, t: &Vec<G2>) -> (r: Scalar)
    requires
        kp.len <= h.len(),
    ensures
        r@ == challenge_value(g1_views(h@), *kp, u1@, u2@, s@, g2_views(t@)),
{
    let cm = Commitments { a_bar: kp.a_bar, b_bar: kp.b_bar, d: kp.d, u1: *u1, u2: *u2 };
    let mut buf = head(h, kp.len, &kp.open, &kp.message_list, &cm);
    absorb_g2(&mut buf, s);
    absorb_g2_list(&mut buf, t, t.len());
    assert(g2_views(t@).len() == t@.len());
    hash_to_fr(buf.as_slice(), PRESENTATION_DST.as_bytes())
}

/// The presentation that the given random scalars give, with the disclosed
/// indices sorted. The indices may come in any order; none may come twice.
pub fn present_with(
    pp: &issuer::PublicParameters,
    cred: &issuer::Signature,
    ipk: &issuer::PublicKey,
    message_list: &Vec<Scalar>,
    reveal_index: &Vec<usize>,
    ppk: &PolicyPublicKey,
    blinding: &Blinding,
) -> (r: Result<(PiKP, PiZKP), Error>)
    ensures
        match r {
            Ok(proof) => present_error(message_list@.len(), pp.h_vec@.len(), reveal_index@, *ppk, *blinding)
                is None && presents(
                *pp,
                *cred,
                *ipk,
                message_list@,
                reveal_index@,
                *ppk,
                *blinding,
                proof.0,
                proof.1,
            ),
            Err(e) => present_error(message_list@.len(), pp.h_vec@.len(), reveal_index@, *ppk, *blinding) == Some(
                e,
            ),
        },
        r matches Ok(proof) ==> proof.0.open@.len() == reveal_index@.len() && proof.1.v@.len() + reveal_index@.len()
            == message_list@.len(),
{
    let n = message_list.len();
    let nonces = &blinding.nonces;
    if !check_inputs(n, pp.h_vec.len(), reveal_index) {
        return Err(Error::InvalidParameter);
    }
    if ppk.ipks.len() == 0 || ppk.ipks.len() != ppk.t.len() {
        return Err(Error::InvalidParameter);
    }
    let sorted = sorted_indices(reveal_index, n);
    let hide = hidden_indices(&sorted, n);
    proof {
        lemma_disclosed(reveal_index@, n as nat);
        lemma_disclosed_count(reveal_index@, n as nat);
    }
    if nonces.delta.len() != hide.len() {
        return Err(Error::InvalidParameter);
    }
    if nonces.r1.is_zero() {
        return Err(Error::RandomnessFailure);
    }
    let r2_inv = match nonces.r2.invert() {
        Some(i) => i,
        None => {
            return Err(Error::RandomnessFailure);
        },
    };
    let keys = key_points(&ppk.ipks);
    let s_r = g2_scale(&ppk.s, &blinding.r);
    let sigma_tilde = add_others(&s_r, &keys, &ppk.t, &ipk.0);
    let shown = select_scalars(message_list, &sorted);
    let hidden_m = select_scalars(message_list, &hide);
    let factor = fr_mul(&nonces.r1, &r2_inv);
    let u = fr_add(&cred.e, &blinding.r);
    let cm = commit(&pp.g1, &pp.h_vec, &cred.a, &factor, &u, message_list, &hide, &r2_inv, nonces);
    let kp = PiKP {
        a_bar: cm.a_bar,
        b_bar: cm.b_bar,
        d: cm.d,
        sigma_tilde,
        open: sorted,
        len: n,
        message_list: shown,
    };
    let c = challenge(&pp.h_vec, &kp, &cm.u1, &cm.u2, &ppk.s, &ppk.t);
    let rs = respond(&c, nonces, &u, &hidden_m);
    let zkp = PiZKP { c, s: rs.s, t: rs.t, z: rs.z, v: rs.v };
    proof {
        assert(values(zkp.v@).len() == zkp.v@.len());
        assert(values(nonces.delta@).len() == nonces.delta@.len());
    }
    Ok((kp, zkp))
}

/// A presentation of the credential that discloses the attributes at the
/// given indices, in any order, under fresh random scalars.
pub fn present(
    pp: &issuer::PublicParameters,
    cred: &issuer::Signature,
    ipk: &issuer::PublicKey,
    message_list: &Vec<Scalar>,
    reveal_index: &Vec<usize>,
    ppk: &PolicyPublicKey,
) -> (r: Result<(PiKP, PiZKP), Error>)
    ensures
        match r {
            Ok(proof) => exists|b: Blinding|
                present_error(message_list@.len(), pp.h_vec@.len(), reveal_index@, *ppk, b) is None && #[trigger] presents(
                    *pp,
                    *cred,
                    *ipk,
                    message_list@,
                    reveal_index@,
                    *ppk,
                    b,
                    proof.0,
                    proof.1,
                ),
            Err(e) => if request_error(message_list@.len(), pp.h_vec@.len(), reveal_index@, *ppk) is Some {
                e == Error::InvalidParameter
            } else {
                e == Error::RandomnessFailure
            },
        },
        r matches Ok(proof) ==> proof.0.open@.len() == reveal_index@.len() && proof.1.v@.len() + reveal_index@.len()
            == message_list@.len(),
{
    let n = message_list.len();
    if !check_inputs(n, pp.h_vec.len(), reveal_index) {
        return Err(Error::InvalidParameter);
    }
    if ppk.ipks.len() == 0 || ppk.ipks.len() != ppk.t.len() {
        return Err(Error::InvalidParameter);
    }
    let hide = hidden_indices(reveal_index, n);
    let r1 = match Scalar::random_nonzero() {
        Ok(s) => s,
        Err(e) => {
            return Err(e);
        },
    };
    let r2 = match Scalar::random_nonzero() {
        Ok(s) => s,
        Err(e) => {
            return Err(e);
        },
    };
    let blinding = Blinding {
        r: Scalar::random(),
        nonces: Nonces {
            r1,
            r2,
            alpha: Scalar::random(),
            beta: Scalar::random(),
            gamma: Scalar::random(),
            delta: random_scalars(hide.len()),
        },
    };
    present_with(pp, cred, ipk, message_list, reveal_index, ppk, &blinding)
}

/// Checks a presentation with the policy's secrets.
pub fn verify_present(pp: &issuer::PublicParameters, keypair: &PolicyKeyPair, pikp: &PiKP, pizkp: &PiZKP) -> (r:
    Result<bool, Error>)
    ensures
        r == verify_outcome(*pp, *keypair, *pikp, *pizkp),
{
    let ppk = &keypair.public_key;
    let n = pikp.len;
    if !check_disclosure(n, pp.h_vec.len(), &pikp.open) {
        return Err(Error::InvalidParameter);
    }
    if ppk.ipks.len() == 0 || ppk.ipks.len() != ppk.t.len() {
        return Err(Error::InvalidParameter);
    }
    if pikp.message_list.len() != pikp.open.len() {
        return Err(Error::InvalidParameter);
    }
    let hide = hidden_indices(&pikp.open, n);
    if pizkp.v.len() != hide.len() {
        return Err(Error::InvalidParameter);
    }
    if pikp.a_bar.is_identity() {
        return Err(Error::InvalidParameter);
    }
    let a_inv = match keypair.secret_key.a.invert() {
        Some(i) => i,
        None => {
            return Err(Error::InvalidKey);
        },
    };
    let u1 = recompute_u1(&pikp.d, &pikp.a_bar, &pikp.b_bar, &pizkp.s, &pizkp.t, &pizkp.c);
    let u2 = recompute_u2(
        &pp.g1,
        &pp.h_vec,
        &pikp.d,
        &pikp.open,
        &pikp.message_list,
        &hide,
        &pizkp.z,
        &pizkp.v,
        &pizkp.c,
    );
    let c = challenge(&pp.h_vec, pikp, &u1, &u2, &ppk.s, &ppk.t);
    if !c.same(&pizkp.c) {
        return Err(Error::ProofVerificationFailed(ProofCheck::Challenge));
    }
    let keys = key_points(&ppk.ipks);
    let minus_a_inv = fr_neg(&a_inv);
    let others = Scalar::from_u64((ppk.ipks.len() - 1) as u64);
    let others_b = fr_mul(&others, &keypair.secret_key.b);
    let unblinded = g2_scale(&pikp.sigma_tilde, &minus_a_inv);
    let shift = g2_scale(&pp.g2, &others_b);
    let start = g2_add(&unblinded, &shift);
    let witness = g2_accumulate(&start, &keys);
    assert(key_views(ppk.ipks@).len() == ppk.ipks@.len());
    let left = pair(&pikp.a_bar, &witness);
    let right = pair(&pikp.b_bar, &pp.g2);
    if !left.same(&right) {
        return Err(Error::ProofVerificationFailed(ProofCheck::PolicyBinding));
    }
    Ok(true)
}

/// How many of the first `n` keys equal the given one.
pub open spec fn occurrences(keys: Seq<Seq<u8>>, key: Seq<u8>, n: nat) -> nat
    decreases n,
{
    if n == 0 {
        0
    } else if keys[n - 1] == key {
        occurrences(keys, key, (n - 1) as nat) + 1
    } else {
        occurrences(keys, key, (n - 1) as nat)
    }
}

/// Whether the generators of the parameters are points, the second one not
/// the identity, and no more than a machine can count.
pub open spec fn parameters_valid(pp: issuer::PublicParameters) -> bool {
    &&& is_g1(pp.g1@)
    &&& is_g2(pp.g2@)
    &&& !g2_is_identity(pp.g2@)
    &&& all_g1(g1_views(pp.h_vec@))
    &&& pp.h_vec@.len() <= usize::MAX
}

/// A key occurs among more keys at least as often as among fewer, and no
/// more often than there are keys.
pub proof fn lemma_occurrences_grow(keys: Seq<Seq<u8>>, key: Seq<u8>, k: nat, n: nat)
    requires
        k <= n,
    ensures
        occurrences(keys, key, k) <= occurrences(keys, key, n),
        occurrences(keys, key, n) <= n,
    decreases n,
{
    if n > 0 {
        if k < n {
            lemma_occurrences_grow(keys, key, k, (n - 1) as nat);
        } else {
            lemma_occurrences_grow(keys, key, (n - 1) as nat, (n - 1) as nat);
        }
    }
}

/// Under the laws of a bilinear group, what a holder folds from the policy
/// is a point of the second group.
pub proof fn lemma_others_sum_valid(init: Seq<u8>, keys: Seq<Seq<u8>>, t: Seq<Seq<u8>>, key: Seq<u8>, n: nat)
    requires
        group_laws(),
        is_g2(init),
        all_g2(t),
        n <= t.len(),
    ensures
        is_g2(others_sum(init, keys, t, key, n)),
    decreases n,
{
    if n > 0 {
        lemma_others_sum_valid(init, keys, t, key, (n - 1) as nat);
        law_g2_sum(others_sum(init, keys, t, key, (n - 1) as nat), t[n - 1]);
    }
}

/// Under the laws of a bilinear group, the verifier turns what a holder
/// folded from the policy back into the holder's issuer key less
/// `g2 * r`, where that key is on the list once; where it is not on the
/// list, into `g2 * -r` alone.
pub proof fn lemma_witness_unfolds(g2: Seq<u8>, keys: Seq<Seq<u8>>, key: Seq<u8>, a: nat, b: nat, r: nat, n: nat)
    requires
        group_laws(),
        is_g2(g2),
        all_g2(keys),
        is_g2(key),
        0 < a < modulus(),
        b < modulus(),
        r < modulus(),
        n <= keys.len(),
        occurrences(keys, key, n) <= 1,
    ensures
        ({
            let t = policy_points(g2, keys, a, b);
            let folded = others_sum(g2_mul(g2_mul(g2, a), r), keys, t, key, n);
            let start = g2_sum(
                g2_mul(folded, fr_opp(fr_inv(a))),
                g2_mul(g2, fr_prod((n - occurrences(keys, key, n)) as nat, b)),
            );
            g2_sum_all(start, keys, n) == if occurrences(keys, key, n) == 0 {
                g2_mul(g2, fr_opp(r))
            } else {
                g2_sum(g2_mul(g2, fr_opp(r)), key)
            }
        }),
    decreases n,
{
    let t = policy_points(g2, keys, a, b);
    let init = g2_mul(g2_mul(g2, a), r);
    let back = fr_opp(fr_inv(a));
    let zero = g2_mul(g2, 0);
    law_inverse(a);
    law_g2_mul(g2, a);
    law_g2_mul(g2_mul(g2, a), r);
    law_g2_mul(g2, fr_opp(r));
    law_g2_mul(g2, b);
    assert(all_g2(t)) by {
        assert forall|i: int| 0 <= i < t.len() implies is_g2(#[trigger] t[i]) by {
            law_g2_sum(keys[i], g2_mul(g2, b));
            law_g2_mul(g2_sum(keys[i], g2_mul(g2, b)), a);
        }
    }
    // a * -(a^-1) = -1
    assert(fr_prod(a, back) == fr_opp(1)) by {
        lemma_fr_prod_opp(a, fr_inv(a));
    }
    if n == 0 {
        // (g2 * a * r) * -(a^-1) = g2 * -r, and zero keys bring g2 * 0
        law_g2_mul_mul(g2, a, r);
        law_g2_mul_mul(g2, fr_prod(a, r), back);
        assert(fr_prod(fr_prod(a, r), back) == fr_opp(r)) by {
            lemma_fr_basics(a, r);
            lemma_fr_prod_assoc(r, a, back);
            lemma_fr_prod_opp(r, 1);
            lemma_fr_small(r);
            lemma_fr_basics(r, fr_opp(1));
        }
        assert(fr_prod(0, b) == 0) by {
            reveal(fr_prod);
            assert(0 * b == 0);
        }
        lemma_g2_zero(g2_mul(g2, fr_opp(r)), g2);
    } else {
        let before = (n - 1) as nat;
        lemma_occurrences_grow(keys, key, before, n);
        lemma_witness_unfolds(g2, keys, key, a, b, r, before);
        let folded_before = others_sum(init, keys, t, key, before);
        lemma_others_sum_valid(init, keys, t, key, before);
        let count_before = (before - occurrences(keys, key, before)) as nat;
        let unblinded_before = g2_mul(folded_before, back);
        let shift_before = g2_mul(g2, fr_prod(count_before, b));
        let start_before = g2_sum(unblinded_before, shift_before);
        law_g2_mul(folded_before, back);
        law_g2_mul(g2, fr_prod(count_before, b));
        law_g2_sum(unblinded_before, shift_before);
        lemma_g2_sum_all_valid(start_before, keys, before);
        let this = keys[n - 1];
        if this == key {
            // the holder's own key: nothing folded, one more key added
        } else {
            // t * -(a^-1) = this * -1 + g2 * -b
            let minus_this = g2_mul(this, fr_opp(1));
            let minus_shift = g2_mul(g2, fr_opp(b));
            let based = g2_sum(this, g2_mul(g2, b));
            law_g2_sum(this, g2_mul(g2, b));
            law_g2_mul(this, fr_opp(1));
            law_g2_mul(g2, fr_opp(b));
            law_g2_mul_mul(based, a, back);
            law_g2_add_mul(this, g2_mul(g2, b), fr_opp(1));
            law_g2_mul_mul(g2, b, fr_opp(1));
            assert(fr_prod(b, fr_opp(1)) == fr_opp(b)) by {
                lemma_fr_prod_opp(b, 1);
                lemma_fr_small(b);
            }
            assert(g2_mul(t[n - 1], back) == g2_sum(minus_this, minus_shift));
            law_g2_add_mul(folded_before, t[n - 1], back);
            // one more other issuer: g2 * ((count + 1) * b) = g2 * (count * b) + g2 * b
            lemma_fr_count_step(count_before, b);
            law_g2_mul_add(g2, fr_prod(count_before, b), b);
            // the start moves by this * -1
            let start = g2_sum(
                g2_sum(unblinded_before, g2_sum(minus_this, minus_shift)),
                g2_sum(shift_before, g2_mul(g2, b)),
            );
            law_g2_sum(minus_this, minus_shift);
            assert(start == g2_sum(start_before, minus_this)) by {
                lemma_g2_swap_middle(
                    unblinded_before,
                    g2_sum(minus_this, minus_shift),
                    shift_before,
                    g2_mul(g2, b),
                );
                law_g2_assoc(minus_this, minus_shift, g2_mul(g2, b));
                law_g2_mul_add(g2, fr_opp(b), b);
                lemma_fr_opp_cancels(b);
                lemma_g2_zero(minus_this, g2);
            }
            lemma_g2_sum_all_shift(start_before, minus_this, keys, before);
            // this * -1 + this = the identity
            let sum_before = g2_sum_all(start_before, keys, before);
            law_g2_assoc(sum_before, minus_this, this);
            law_g2_unit(this, this);
            law_g2_mul_add(this, fr_opp(1), 1);
            lemma_fr_opp_cancels(1);
            lemma_g2_zero(sum_before, this);
        }
    }
}

/// Under the laws of a bilinear group, the commitment for one listed key
/// that an auditor recomputes from an honest policy proof is the
/// verifier's.
pub proof fn lemma_policy_commitment_recomputed(
    g2: Seq<u8>,
    key: Seq<u8>,
    a: nat,
    b: nat,
    alpha: nat,
    beta: nat,
    c: nat,
)
    requires
        group_laws(),
        is_g2(g2),
        is_g2(key),
        0 < a < modulus(),
        b < modulus(),
        alpha < modulus(),
        beta < modulus(),
        c < modulus(),
    ensures
        ({
            let t = g2_mul(g2_sum(key, g2_mul(g2, b)), a);
            g2_sum(
                g2_sum(
                    g2_mul(t, fr_sum(alpha, fr_prod(c, fr_inv(a)))),
                    g2_mul(g2, fr_diff(beta, fr_prod(c, b))),
                ),
                g2_mul(key, fr_opp(c)),
            ) == g2_sum(g2_mul(t, alpha), g2_mul(g2, beta))
        }),
{
    let base = g2_sum(key, g2_mul(g2, b));
    let t = g2_mul(base, a);
    let cb = fr_prod(c, b);
    law_g2_mul(g2, b);
    law_g2_sum(key, g2_mul(g2, b));
    law_g2_mul(base, a);
    lemma_fr_basics(c, b);
    // t * (alpha + c * a^-1) = t * alpha + (key * c + g2 * cb)
    let x1 = g2_mul(t, alpha);
    let x2 = g2_mul(g2, cb);
    let x3 = g2_mul(key, c);
    law_g2_mul_add(t, alpha, fr_prod(c, fr_inv(a)));
    law_g2_mul_mul(base, a, fr_prod(c, fr_inv(a)));
    assert(fr_prod(a, fr_prod(c, fr_inv(a))) == c) by {
        lemma_fr_units(a, a);
        lemma_fr_inverse_absorbed(c, a);
        lemma_fr_basics(a, fr_prod(c, fr_inv(a)));
    }
    law_g2_add_mul(key, g2_mul(g2, b), c);
    law_g2_mul_mul(g2, b, c);
    lemma_fr_basics(b, c);
    // g2 * (beta - cb) = g2 * beta + g2 * -cb
    let x4 = g2_mul(g2, beta);
    let x5 = g2_mul(g2, fr_opp(cb));
    lemma_fr_diff_is_sum(beta, cb);
    law_g2_mul_add(g2, beta, fr_opp(cb));
    let x6 = g2_mul(key, fr_opp(c));
    law_g2_mul(t, alpha);
    law_g2_mul(g2, cb);
    law_g2_mul(key, c);
    law_g2_mul(g2, beta);
    law_g2_mul(g2, fr_opp(cb));
    law_g2_mul(key, fr_opp(c));
    law_g2_sum(x3, x2);
    law_g2_sum(x1, x4);
    // ((x1 + (x3 + x2)) + (x4 + x5)) + x6 = x1 + x4
    lemma_g2_swap_middle(x1, g2_sum(x3, x2), x4, x5);
    lemma_g2_swap_last(x3, x2, x5);
    law_g2_assoc(x3, x2, x5);
    lemma_g2_cancel(g2, cb);
    lemma_g2_cancel(key, c);
    lemma_g2_zero(x3, g2);
    law_g2_assoc(g2_sum(x1, x4), x3, x6);
    lemma_g2_zero(g2_sum(x1, x4), key);
}

/// Under the laws of a bilinear group, the policy that an honest verifier
/// makes passes the audit, where the listed keys are points and the
/// generator is not the identity.
pub proof fn lemma_honest_policy_audits(
    pp: issuer::PublicParameters,
    ipks: Seq<issuer::PublicKey>,
    nonces: PolicyNonces,
    pair: PolicyKeyPair,
)
    requires
        group_laws(),
        is_g2(pp.g2@),
        !g2_is_identity(pp.g2@),
        all_g2(key_views(ipks)),
        nonces.a@ < modulus(),
        nonces.b@ < modulus(),
        nonces.alpha@ < modulus(),
        nonces.beta@ < modulus(),
        pair.public_key.pi.c@ < modulus(),
        policy_error(ipks, nonces) is None,
        policy_of(pp, ipks, nonces, pair),
    ensures
        audit_outcome(pp, pair.public_key) == Ok::<bool, Error>(true),
{
    let g2 = pp.g2@;
    let ppk = pair.public_key;
    let keys = key_views(ipks);
    let t = g2_views(ppk.t@);
    let a = nonces.a@;
    let c = ppk.pi.c@;
    assert(keys.len() == ipks.len());
    assert(t.len() == ppk.t@.len());
    law_g2_identity(g2, a);
    law_g2_mul(g2, a);
    // s * (alpha + c * a^-1) + g2 * -c = s * alpha
    let s = g2_mul(g2, a);
    law_g2_mul_add(s, nonces.alpha@, fr_prod(c, fr_inv(a)));
    law_g2_mul_mul(g2, a, fr_prod(c, fr_inv(a)));
    assert(fr_prod(a, fr_prod(c, fr_inv(a))) == c) by {
        lemma_fr_units(a, a);
        lemma_fr_inverse_absorbed(c, a);
        lemma_fr_basics(a, fr_prod(c, fr_inv(a)));
    }
    law_g2_mul(s, nonces.alpha@);
    law_g2_mul(g2, c);
    law_g2_mul(g2, fr_opp(c));
    law_g2_assoc(g2_mul(s, nonces.alpha@), g2_mul(g2, c), g2_mul(g2, fr_opp(c)));
    lemma_g2_cancel(g2, c);
    lemma_g2_zero(g2_mul(s, nonces.alpha@), g2);
    // each commitment of the table
    assert(policy_recomputed(g2, keys, t, ppk.pi.s@, ppk.pi.t@, c) =~= policy_commitments(
        g2,
        t,
        nonces.alpha@,
        nonces.beta@,
    )) by {
        assert forall|i: int| 0 <= i < t.len() implies policy_recomputed(
            g2,
            keys,
            t,
            ppk.pi.s@,
            ppk.pi.t@,
            c,
        )[i] == policy_commitments(g2, t, nonces.alpha@, nonces.beta@)[i] by {
            lemma_policy_commitment_recomputed(g2, keys[i], a, nonces.b@, nonces.alpha@, nonces.beta@, c);
        }
    }
}

/// Under the laws of a bilinear group, the presentation that an honest
/// holder makes is accepted, where the parameters and the listed keys are
/// points, the holder's credential was issued under the issuer key that
/// the holder names, the policy was made from the list, and that key is on
/// the list once.
pub proof fn lemma_honest_presentation_verifies(
    pp: issuer::PublicParameters,
    isk: SecretKey,
    ipk: issuer::PublicKey,
    cred: issuer::Signature,
    m: Seq<Scalar>,
    reveal: Seq<usize>,
    ipks: Seq<issuer::PublicKey>,
    policy_nonces: PolicyNonces,
    pair: PolicyKeyPair,
    b: Blinding,
    kp: PiKP,
    zkp: PiZKP,
)
    requires
        group_laws(),
        parameters_valid(pp),
        all_g2(key_views(ipks)),
        isk.0@ < modulus(),
        cred.e@ < modulus(),
        zkp.c@ < modulus(),
        policy_nonces.a@ < modulus(),
        policy_nonces.b@ < modulus(),
        b.r@ < modulus(),
        b.nonces.r1@ < modulus(),
        b.nonces.r2@ < modulus(),
        b.nonces.alpha@ < modulus(),
        b.nonces.beta@ < modulus(),
        b.nonces.gamma@ < modulus(),
        ipk.0@ == g2_mul(pp.g2@, isk.0@),
        issuer::signs(pp, isk, m, cred),
        policy_error(ipks, policy_nonces) is None,
        policy_of(pp, ipks, policy_nonces, pair),
        occurrences(key_views(ipks), ipk.0@, ipks.len()) == 1,
        present_error(m.len(), pp.h_vec@.len(), reveal, pair.public_key, b) is None,
        presents(pp, cred, ipk, m, reveal, pair.public_key, b, kp, zkp),
    ensures
        verify_outcome(pp, pair, kp, zkp) == Ok::<bool, Error>(true),
{
    let g1 = pp.g1@;
    let g2 = pp.g2@;
    let h = g1_views(pp.h_vec@);
    let n = m.len();
    lemma_disclosed(reveal, n);
    let reveal = disclosed(reveal, n);
    let hide = hidden(reveal, n);
    let keys = key_views(ipks);
    let nonces = b.nonces;
    let x = isk.0@;
    let e = cred.e@;
    let c = zkp.c@;
    let s = fr_sum(x, e);
    let u = fr_sum(e, b.r@);
    let y = fr_sum(fr_opp(b.r@), x);
    let r2_inv = fr_inv(nonces.r2@);
    let factor = fr_prod(nonces.r1@, r2_inv);
    let commitment = issuer::commitment(g1, h, values(m));
    assert(values(m).len() == n);
    assert(h.len() == pp.h_vec@.len());
    assert(keys.len() == ipks.len());
    lemma_fr_basics(x, e);
    lemma_fr_basics(e, b.r@);
    lemma_g1_lincomb_valid(g1, h, values(m), n);
    law_g1_mul(commitment, fr_inv(s));
    law_g1_mul(commitment, r2_inv);
    law_g1_mul(cred.a@, factor);
    law_g2_mul(g2, x);

    // the shape of the presentation
    lemma_hidden_members(reveal, n);
    assert forall|k: int| 0 <= k < hide.len() implies hide[k] < n by {
        assert(hide.contains(hide[k]));
    }
    lemma_values_selected(m, reveal);
    lemma_values_selected(m, hide);
    assert(values(zkp.v@).len() == zkp.v@.len());
    assert(values(nonces.delta@).len() == nonces.delta@.len());
    lemma_fr_units(nonces.r2@, nonces.r2@);
    lemma_fr_units(nonces.r1@, r2_inv);
    law_g1_identity(cred.a@, factor);

    // the challenge
    lemma_first_commitment_recomputed(kp.d@, kp.a_bar@, nonces.r1@, u, nonces.alpha@, nonces.beta@, c);
    lemma_second_commitment_recomputed(
        g1,
        h,
        values(m),
        reveal,
        nonces.r2@,
        nonces.gamma@,
        values(nonces.delta@),
        c,
    );

    // the verifier's witness is the holder's key less g2 * r
    lemma_witness_unfolds(g2, keys, ipk.0@, policy_nonces.a@, policy_nonces.b@, b.r@, keys.len());
    assert(g2_views(pair.public_key.t@).len() == pair.public_key.t@.len());
    assert(key_views(pair.public_key.ipks@) == keys);
    let witness = issuer_witness(g2, pair, kp.sigma_tilde@);
    assert(witness == g2_sum(g2_mul(g2, fr_opp(b.r@)), ipk.0@));
    law_g2_mul_add(g2, fr_opp(b.r@), x);
    assert(witness == g2_mul(g2, y));

    // the randomized credential pairs with the witness
    let k = fr_prod(fr_inv(s), factor);
    assert(fr_sum(fr_prod(k, y), fr_prod(k, u)) == fr_prod(r2_inv, nonces.r1@)) by {
        lemma_fr_distributes(k, y, u);
        // (-r + x) + (e + r) = x + e
        assert(fr_sum(y, u) == s) by {
            lemma_fr_basics(fr_opp(b.r@), x);
            lemma_fr_sum_assoc(x, fr_opp(b.r@), u);
            lemma_fr_basics(e, b.r@);
            lemma_fr_sum_assoc(fr_opp(b.r@), b.r@, e);
            lemma_fr_opp_cancels(b.r@);
            lemma_fr_small(e);
        }
        lemma_fr_basics(factor, s);
        lemma_fr_inverse_absorbed(factor, s);
        lemma_fr_basics(nonces.r1@, r2_inv);
    }
    lemma_randomized_credential(commitment, fr_inv(s), factor, r2_inv, nonces.r1@, u, y);
    law_pairing_scalar(kp.a_bar@, g2, y);
}

/// Whether two presentations hold the same elements, each list in the
/// same order.
pub open spec fn same_presentation(first: (PiKP, PiZKP), second: (PiKP, PiZKP)) -> bool {
    let (kp, zkp) = first;
    let (other_kp, other_zkp) = second;
    &&& kp.a_bar == other_kp.a_bar
    &&& kp.b_bar == other_kp.b_bar
    &&& kp.d == other_kp.d
    &&& kp.sigma_tilde == other_kp.sigma_tilde
    &&& kp.open@ == other_kp.open@
    &&& kp.len == other_kp.len
    &&& kp.message_list@ == other_kp.message_list@
    &&& zkp.c == other_zkp.c
    &&& zkp.s == other_zkp.s
    &&& zkp.t == other_zkp.t
    &&& zkp.z == other_zkp.z
    &&& zkp.v@ == other_zkp.v@
}

/// The random scalars determine the presentation: two presentations that
/// the same scalars give for the same request hold the same elements.
pub proof fn lemma_presentation_determined(
    pp: issuer::PublicParameters,
    cred: issuer::Signature,
    ipk: issuer::PublicKey,
    m: Seq<Scalar>,
    reveal: Seq<usize>,
    ppk: PolicyPublicKey,
    b: Blinding,
    first: (PiKP, PiZKP),
    second: (PiKP, PiZKP),
)
    requires
        presents(pp, cred, ipk, m, reveal, ppk, b, first.0, first.1),
        presents(pp, cred, ipk, m, reveal, ppk, b, second.0, second.1),
    ensures
        same_presentation(first, second),
{
    let (kp, zkp) = first;
    let (other_kp, other_zkp) = second;
    crate::group::lemma_g1_determined(kp.a_bar, other_kp.a_bar);
    crate::group::lemma_g1_determined(kp.b_bar, other_kp.b_bar);
    crate::group::lemma_g1_determined(kp.d, other_kp.d);
    crate::group::lemma_g2_determined(kp.sigma_tilde, other_kp.sigma_tilde);
    crate::linear::lemma_scalars_determined(kp.message_list@, other_kp.message_list@);
    crate::scalar::lemma_scalar_determined(zkp.c, other_zkp.c);
    crate::scalar::lemma_scalar_determined(zkp.s, other_zkp.s);
    crate::scalar::lemma_scalar_determined(zkp.t, other_zkp.t);
    crate::scalar::lemma_scalar_determined(zkp.z, other_zkp.z);
    crate::linear::lemma_scalars_determined(zkp.v@, other_zkp.v@);
}

} // verus!
