//! Pointcheval-Sanders signatures on a vector of attributes, with a proof
//! of knowledge that discloses some of them.
//!
//! With secret `(x, y)` and public key `(g2 * x, g2 * y[i])`, a signature
//! on `m` under the nonce `r` is `(g1 * r, g1 * (r * (x + sum y[i] *
//! m[i])))`. It verifies when `e(sigma2, g2) = e(sigma1, pk_x + sum
//! pk_y[i] * m[i])`.

use vstd::prelude::*;
use vstd::string::*;

use crate::algebra::{
    all_g2, group_laws, is_g1, is_g2, law_g1_identity, law_g1_mul, law_g1_mul_add, law_g1_mul_mul,
    law_g2_add_mul, law_g2_mul, law_g2_mul_add, law_g2_mul_mul, law_g2_sum, law_pairing_right,
    law_pairing_scalar, lemma_fr_basics, lemma_fr_distributes, lemma_fr_opp_cancels, lemma_fr_opp_opp,
    lemma_fr_prod_opp, lemma_fr_small, lemma_fr_sum_assoc, lemma_fr_units, lemma_g2_four_pairs_cancel,
    lemma_g2_lincomb_at_add, lemma_g2_lincomb_at_from, lemma_g2_lincomb_at_scale, lemma_g2_lincomb_at_valid,
    lemma_g2_lincomb_at_zero, lemma_g2_lincomb_from, lemma_g2_lincomb_scale, lemma_g2_lincomb_valid,
    lemma_g2_partition, lemma_values_selected,
};
use crate::error::{Error, ProofCheck};
use crate::group::{
    g1_add, g1_is_identity, g1_mul, g1_scale, g1_sum, g2_is_identity, g2_mul, g2_scale, g2_sum, gt_add, gt_sum,
    pair, pairing, Gt, G1, G2,
};
use crate::hashing::{hash_to_fr, hash_to_fr_value};
use crate::linear::{
    disclosed, g2_combine, g2_combine_at, g2_lincomb, g2_lincomb_at, g2_views, hidden,
    hidden_indices, lemma_disclosed, lemma_disclosed_count, sorted_indices,
    increasing_below, lemma_hidden_members, masked_plus, negate_all, negated, random_nonzero_scalars, random_scalars, respond_plus,
    scaled, select_scalars, selected, values,
};
use crate::scalar::{fr_add, fr_mul, fr_neg, fr_opp, fr_prod, fr_sum, modulus, Scalar};
use crate::setup::{decode_g1_hex, decode_g2_hex, g1_from_hex, g2_from_hex, G1_GENERATOR_HEX, G2_GENERATOR_HEX, MAX_ATTRIBUTES};
use crate::sigma::{check_disclosure, check_inputs, disclosure_error, input_error};
use crate::transcript::{absorb_g1, absorb_gt, absorb_index_list, absorb_scalar_list, concat, encodings, index_list_bytes};

verus! {

/// The tag of the proof challenge.
pub const PROOF_DST: &'static str = "MY_CHALLENGE_GENERATOR_DST_V1";

/// The two standard generators.
#[derive(Clone, Copy, Debug)]
pub struct PublicParameters {
    pub g1: G1,
    pub g2: G2,
}

/// A secret key: one scalar, and one for each attribute position.
#[derive(Clone, Debug)]
pub struct SecretKey {
    pub x: Scalar,
    pub y: Vec<Scalar>,
}

/// A public key: the generator of the second group times each secret.
#[derive(Clone, Debug)]
pub struct PublicKey {
    pub pk_x: G2,
    pub pk_y: Vec<G2>,
}

/// A key pair.
#[derive(Clone, Debug)]
pub struct KeyPair {
    pub sk: SecretKey,
    pub pk: PublicKey,
}

/// A signature.
#[derive(Clone, Copy, Debug)]
pub struct Signature {
    pub sigma1: G1,
    pub sigma2: G1,
}

/// The challenge and the responses of a proof.
#[derive(Clone, Debug)]
pub struct Proof {
    pub z_i: Vec<Scalar>,
    pub z_t: Scalar,
    pub c: Scalar,
}

/// A randomized signature with a proof for the hidden attributes.
#[derive(Clone, Debug)]
pub struct PresentationToken {
    pub sigma1: G1,
    pub sigma2: G1,
    pub proof: Proof,
    pub len: usize,
    pub open_messages: Vec<Scalar>,
    pub reveal_index: Vec<usize>,
}

/// The random scalars of one proof.
#[derive(Clone, Debug)]
pub struct Blinding {
    pub r: Scalar,
    pub t: Scalar,
    pub k_i: Vec<Scalar>,
    pub k_t: Scalar,
}

/// The sum of the first `n` products `y[i] * m[i]` in the scalar field.
pub open spec fn dot(y: Seq<nat>, m: Seq<nat>, n: nat) -> nat
    decreases n,
{
    if n == 0 {
        0
    } else {
        fr_sum(dot(y, m, (n - 1) as nat), fr_prod(y[n - 1], m[n - 1]))
    }
}

/// The public points that belong to the secret scalars.
pub open spec fn public_points(g2: Seq<u8>, y: Seq<nat>) -> Seq<Seq<u8>> {
    Seq::new(y.len(), |i: int| g2_mul(g2, y[i]))
}

/// Whether `pair` holds the public key of its secret key.
pub open spec fn key_pair_of(pp: PublicParameters, pair: KeyPair) -> bool {
    &&& pair.pk.pk_x@ == g2_mul(pp.g2@, pair.sk.x@)
    &&& g2_views(pair.pk.pk_y@) == public_points(pp.g2@, values(pair.sk.y@))
}

/// Why no signature is made with the nonce `r`, if none is.
pub open spec fn sign_error(sk: SecretKey, n: nat, r: nat) -> Option<Error> {
    if n == 0 || n > sk.y@.len() {
        Some(Error::InvalidParameter)
    } else if r == 0 {
        Some(Error::RandomnessFailure)
    } else {
        None
    }
}

/// Whether `sig` is the signature on `m` that the nonce `r` gives.
pub open spec fn signs(pp: PublicParameters, sk: SecretKey, m: Seq<nat>, r: nat, sig: Signature) -> bool {
    &&& sig.sigma1@ == g1_mul(pp.g1@, r)
    &&& sig.sigma2@ == g1_mul(pp.g1@, fr_prod(r, fr_sum(sk.x@, dot(values(sk.y@), m, m.len()))))
}

/// Whether `sig` is a signature on `m` made with some nonce.
pub open spec fn signed(pp: PublicParameters, sk: SecretKey, m: Seq<nat>, sig: Signature) -> bool {
    exists|r: nat| r != 0 && #[trigger] signs(pp, sk, m, r, sig)
}

/// What verification of a signature returns.
pub open spec fn verify_outcome(pp: PublicParameters, pk: PublicKey, sig: Signature, m: Seq<nat>) -> Result<
    bool,
    Error,
> {
    if m.len() == 0 || m.len() > pk.pk_y@.len() {
        Err(Error::InvalidParameter)
    } else if pairing(sig.sigma2@, pp.g2@) == pairing(
        sig.sigma1@,
        g2_lincomb(pk.pk_x@, g2_views(pk.pk_y@), m, m.len()),
    ) {
        Ok(true)
    } else {
        Err(Error::SignatureVerificationFailed)
    }
}

/// The commitment of a proof: `e(sigma1, g2 * k_t + sum pk_y[j] * k[j])`
/// over the hidden indices `j`.
pub open spec fn commitment_value(
    pp: PublicParameters,
    pk: PublicKey,
    sigma1: Seq<u8>,
    hide: Seq<usize>,
    k_t: nat,
    k: Seq<nat>,
) -> Seq<u8> {
    pairing(sigma1, g2_lincomb_at(g2_mul(pp.g2@, k_t), g2_views(pk.pk_y@), hide, k, hide.len()))
}

/// The challenge of a proof: hashed from the randomized signature, the
/// disclosed indices and attributes, and the commitment.
pub open spec fn challenge_value(pt: PresentationToken, k: Seq<u8>) -> nat {
    hash_to_fr_value(
        pt.sigma1@ + pt.sigma2@ + index_list_bytes(pt.reveal_index@, pt.reveal_index@.len()) + concat(
            encodings(pt.open_messages@),
            pt.open_messages@.len(),
        ) + k,
        PROOF_DST.spec_bytes(),
    )
}

/// Why no proof is made with the given random scalars, if none is.
pub open spec fn prove_error(pk: PublicKey, n: nat, reveal: Seq<usize>, b: Blinding) -> Option<Error> {
    if input_error(n, pk.pk_y@.len(), reveal) is Some || b.k_i@.len() != hidden(reveal, n).len() {
        Some(Error::InvalidParameter)
    } else if b.r@ == 0 {
        Some(Error::RandomnessFailure)
    } else {
        None
    }
}

/// Whether `pt` is the proof that the random scalars give.
pub open spec fn proves(
    pp: PublicParameters,
    pk: PublicKey,
    cred: Signature,
    m: Seq<Scalar>,
    reveal: Seq<usize>,
    b: Blinding,
    pt: PresentationToken,
) -> bool {
    let n = m.len();
    let reveal = disclosed(reveal, n);
    let hide = hidden(reveal, n);
    let c = pt.proof.c@;
    &&& pt.len == n
    &&& pt.reveal_index@ == reveal
    &&& pt.open_messages@ == selected(m, reveal)
    &&& pt.sigma1@ == g1_mul(cred.sigma1@, b.r@)
    &&& pt.sigma2@ == g1_mul(g1_sum(cred.sigma2@, g1_mul(cred.sigma1@, b.t@)), b.r@)
    &&& c == challenge_value(pt, commitment_value(pp, pk, pt.sigma1@, hide, b.k_t@, values(b.k_i@)))
    &&& values(pt.proof.z_i@) == masked_plus(values(b.k_i@), c, values(selected(m, hide)))
    &&& pt.proof.z_t@ == fr_sum(b.k_t@, fr_prod(c, b.t@))
}

/// Why the shape of a proof is refused, if it is.
pub open spec fn shape_error(pk: PublicKey, pt: PresentationToken) -> Option<Error> {
    if disclosure_error(pt.len as nat, pk.pk_y@.len(), pt.reveal_index@) is Some || pt.open_messages@.len()
        != pt.reveal_index@.len() || pt.proof.z_i@.len() != hidden(pt.reveal_index@, pt.len as nat).len()
        || g1_is_identity(pt.sigma1@) {
        Some(Error::InvalidParameter)
    } else {
        None
    }
}

/// The commitment that a verifier recomputes:
/// `e(sigma2, g2 * -c) + e(sigma1, (-pk_x - sum pk_y[i] * m[i]) * -c) +
/// e(sigma1, g2 * z_t + sum pk_y[j] * z[j])` over the disclosed indices `i`
/// and the hidden indices `j`.
pub open spec fn recomputed_commitment(pp: PublicParameters, pk: PublicKey, pt: PresentationToken) -> Seq<u8> {
    let y = g2_views(pk.pk_y@);
    let c = pt.proof.c@;
    let hide = hidden(pt.reveal_index@, pt.len as nat);
    gt_sum(
        gt_sum(
            pairing(pt.sigma2@, g2_mul(pp.g2@, fr_opp(c))),
            pairing(
                pt.sigma1@,
                g2_mul(
                    g2_lincomb_at(
                        g2_mul(pk.pk_x@, fr_opp(1)),
                        y,
                        pt.reveal_index@,
                        negated(values(pt.open_messages@)),
                        pt.reveal_index@.len(),
                    ),
                    fr_opp(c),
                ),
            ),
        ),
        pairing(pt.sigma1@, g2_lincomb_at(g2_mul(pp.g2@, pt.proof.z_t@), y, hide, values(pt.proof.z_i@), hide.len())),
    )
}

/// What the check of a proof returns.
pub open spec fn proof_outcome(pp: PublicParameters, pk: PublicKey, pt: PresentationToken) -> Result<bool, Error> {
    if shape_error(pk, pt) is Some {
        Err(Error::InvalidParameter)
    } else if pt.proof.c@ != challenge_value(pt, recomputed_commitment(pp, pk, pt)) {
        Err(Error::ProofVerificationFailed(ProofCheck::Challenge))
    } else {
        Ok(true)
    }
}

/// Why no parameters are derived, if none are: a published encoding does
/// not decode, or a generator is the identity.
pub open spec fn par_gen_error() -> Option<Error> {
    match (g1_from_hex(G1_GENERATOR_HEX), g2_from_hex(G2_GENERATOR_HEX)) {
        (Some(g1), Some(g2)) => if g1_is_identity(g1) || g2_is_identity(g2) {
            Some(Error::InvalidParameter)
        } else {
            None
        },
        _ => Some(Error::InvalidEncoding),
    }
}

/// Derives the parameters and checks that neither generator is the
/// identity.
pub fn par_gen() -> (r: Result<PublicParameters, Error>)
    ensures
        match r {
            Ok(pp) => par_gen_error() is None && g1_from_hex(G1_GENERATOR_HEX) == Some(pp.g1@) && g2_from_hex(
                G2_GENERATOR_HEX,
            ) == Some(pp.g2@) && !g1_is_identity(pp.g1@) && !g2_is_identity(pp.g2@),
            Err(e) => par_gen_error() == Some(e),
        },
{
    let g1 = match decode_g1_hex(G1_GENERATOR_HEX) {
        Ok(p) => p,
        Err(e) => {
            return Err(e);
        },
    };
    let g2 = match decode_g2_hex(G2_GENERATOR_HEX) {
        Ok(p) => p,
        Err(e) => {
            return Err(e);
        },
    };
    if g1.is_identity() || g2.is_identity() {
        return Err(Error::InvalidParameter);
    }
    Ok(PublicParameters { g1, g2 })
}

/// The generator of the second group times each scalar of a list.
pub fn make_public_points(g2: &G2, y: &Vec<Scalar>) -> (r: Vec<G2>)
    ensures
        r.len() == y.len(),
        g2_views(r@) == public_points(g2@, values(y@)),
{
    let mut out: Vec<G2> = Vec::new();
    let mut i: usize = 0;
    while i < y.len()
        invariant
            i <= y.len(),
            out.len() == i,
            forall|j: int| 0 <= j < i ==> out[j]@ == g2_mul(g2@, y[j]@),
        decreases y.len() - i,
    {
        out.push(g2_scale(g2, &y[i]));
        i += 1;
    }
    assert(g2_views(out@) =~= public_points(g2@, values(y@)));
    out
}

/// The key pair of a given secret.
pub fn key_pair_from(pp: &PublicParameters, sk: SecretKey) -> (r: KeyPair)
    ensures
        r.sk == sk,
        key_pair_of(*pp, r),
{
    let pk_x = g2_scale(&pp.g2, &sk.x);
    let pk_y = make_public_points(&pp.g2, &sk.y);
    KeyPair { sk, pk: PublicKey { pk_x, pk_y } }
}

/// A fresh key pair for `MAX_ATTRIBUTES` attribute positions.
pub fn key_gen(pp: &PublicParameters) -> (r: Result<KeyPair, Error>)
    ensures
        match r {
            Ok(pair) => {
                &&& pair.sk.x@ != 0
                &&& pair.sk.y@.len() == MAX_ATTRIBUTES
                &&& forall|i: int| 0 <= i < pair.sk.y@.len() ==> (#[trigger] pair.sk.y@[i])@ != 0
                &&& key_pair_of(*pp, pair)
            },
            Err(e) => e == Error::RandomnessFailure,
        },
{
    let x = match Scalar::random_nonzero() {
        Ok(s) => s,
        Err(e) => {
            return Err(e);
        },
    };
    let y = match random_nonzero_scalars(MAX_ATTRIBUTES) {
        Ok(v) => v,
        Err(e) => {
            return Err(e);
        },
    };
    Ok(key_pair_from(pp, SecretKey { x, y }))
}

/// The sum of the products `y[i] * m[i]` over the positions of `m`.
pub(crate) fn inner_product(y: &Vec<Scalar>, m: &Vec<Scalar>) -> (r: Scalar)
    requires
        m.len() <= y.len(),
    ensures
        r@ == dot(values(y@), values(m@), m@.len()),
{
    let mut acc = Scalar::from_u64(0);
    let mut i: usize = 0;
    while i < m.len()
        invariant
            i <= m.len() <= y.len(),
            acc@ == dot(values(y@), values(m@), i as nat),
        decreases m.len() - i,
    {
        let term = fr_mul(&y[i], &m[i]);
        acc = fr_add(&acc, &term);
        i += 1;
    }
    acc
}

/// The signature on the attributes that the nonce `r` gives.
pub fn sign_with(pp: &PublicParameters, sk: &SecretKey, messages: &Vec<Scalar>, r: &Scalar) -> (out: Result<
    Signature,
    Error,
>)
    ensures
        match out {
            Ok(sig) => sign_error(*sk, messages@.len(), r@) is None && signs(*pp, *sk, values(messages@), r@, sig),
            Err(e) => sign_error(*sk, messages@.len(), r@) == Some(e),
        },
{
    if messages.len() == 0 || messages.len() > sk.y.len() {
        return Err(Error::InvalidParameter);
    }
    if r.is_zero() {
        return Err(Error::RandomnessFailure);
    }
    let sigma1 = g1_scale(&pp.g1, r);
    let sum = inner_product(&sk.y, messages);
    assert(values(messages@).len() == messages@.len());
    let exponent = fr_mul(r, &fr_add(&sk.x, &sum));
    let sigma2 = g1_scale(&pp.g1, &exponent);
    Ok(Signature { sigma1, sigma2 })
}

/// A signature on the attributes under a fresh nonce.
pub fn sign(pp: &PublicParameters, sk: &SecretKey, messages: &Vec<Scalar>) -> (out: Result<Signature, Error>)
    ensures
        match out {
            Ok(sig) => 1 <= messages@.len() <= sk.y@.len() && signed(*pp, *sk, values(messages@), sig),
            Err(e) => if messages@.len() == 0 || messages@.len() > sk.y@.len() {
                e == Error::InvalidParameter
            } else {
                e == Error::RandomnessFailure
            },
        },
{
    if messages.len() == 0 || messages.len() > sk.y.len() {
        return Err(Error::InvalidParameter);
    }
    match Scalar::random_nonzero() {
        Ok(r) => sign_with(pp, sk, messages, &r),
        Err(e) => Err(e),
    }
}

/// Checks a signature on the attributes under a public key.
pub fn verify_sign(pp: &PublicParameters, pk: &PublicKey, signature: &Signature, messages: &Vec<Scalar>) -> (r:
    Result<bool, Error>)
    ensures
        r == verify_outcome(*pp, *pk, *signature, values(messages@)),
{
    assert(values(messages@).len() == messages@.len());
    if messages.len() == 0 || messages.len() > pk.pk_y.len() {
        return Err(Error::InvalidParameter);
    }
    let key = g2_combine(&pk.pk_x, &pk.pk_y, messages, messages.len());
    let left = pair(&signature.sigma2, &pp.g2);
    let right = pair(&signature.sigma1, &key);
    if left.same(&right) {
        Ok(true)
    } else {
        Err(Error::SignatureVerificationFailed)
    }
}

/// The challenge that belongs to a token and a commitment.
pub fn challenge(pt: &PresentationToken, k: &Gt) -> (r: Scalar)
    ensures
        r@ == challenge_value(*pt, k@),
{
    let mut buf: Vec<u8> = Vec::new();
    absorb_g1(&mut buf, &pt.sigma1);
    absorb_g1(&mut buf, &pt.sigma2);
    absorb_index_list(&mut buf, &pt.reveal_index);
    absorb_scalar_list(&mut buf, &pt.open_messages);
    assert(encodings(pt.open_messages@).len() == pt.open_messages@.len());
    absorb_gt(&mut buf, k);
    assert(buf@ =~= pt.sigma1@ + pt.sigma2@ + index_list_bytes(pt.reveal_index@, pt.reveal_index@.len())
        + concat(encodings(pt.open_messages@), pt.open_messages@.len()) + k@);
    hash_to_fr(buf.as_slice(), PROOF_DST.as_bytes())
}

/// The proof that the given random scalars give, with the disclosed
/// indices sorted. The indices may come in any order; none may come twice.
pub fn create_proof_with(
    pp: &PublicParameters,
    pk: &PublicKey,
    cred: &Signature,
    message_list: &Vec<Scalar>,
    reveal_index: &Vec<usize>,
    blinding: &Blinding,
) -> (r: Result<PresentationToken, Error>)
    ensures
        match r {
            Ok(pt) => prove_error(*pk, message_list@.len(), reveal_index@, *blinding) is None && proves(
                *pp,
                *pk,
                *cred,
                message_list@,
                reveal_index@,
                *blinding,
                pt,
            ),
            Err(e) => prove_error(*pk, message_list@.len(), reveal_index@, *blinding) == Some(e),
        },
        r matches Ok(pt) ==> pt.reveal_index@.len() == reveal_index@.len() && pt.proof.z_i@.len() + reveal_index@.len()
            == message_list@.len(),
{
    let message_len = message_list.len();
    if !check_inputs(message_len, pk.pk_y.len(), reveal_index) {
        return Err(Error::InvalidParameter);
    }
    let sorted = sorted_indices(reveal_index, message_len);
    let close_index = hidden_indices(&sorted, message_len);
    proof {
        lemma_disclosed(reveal_index@, message_len as nat);
        lemma_disclosed_count(reveal_index@, message_len as nat);
    }
    if blinding.k_i.len() != close_index.len() {
        return Err(Error::InvalidParameter);
    }
    if blinding.r.is_zero() {
        return Err(Error::RandomnessFailure);
    }
    let open_messages = select_scalars(message_list, &sorted);
    let close_messages = select_scalars(message_list, &close_index);
    let new_sigma1 = g1_scale(&cred.sigma1, &blinding.r);
    let shifted = g1_add(&cred.sigma2, &g1_scale(&cred.sigma1, &blinding.t));
    let new_sigma2 = g1_scale(&shifted, &blinding.r);
    let start = g2_scale(&pp.g2, &blinding.k_t);
    let k_input = g2_combine_at(&start, &pk.pk_y, &close_index, &blinding.k_i);
    let k = pair(&new_sigma1, &k_input);
    let mut pt = PresentationToken {
        sigma1: new_sigma1,
        sigma2: new_sigma2,
        proof: Proof { z_i: Vec::new(), z_t: Scalar::from_u64(0), c: Scalar::from_u64(0) },
        len: message_len,
        open_messages,
        reveal_index: sorted,
    };
    let c = challenge(&pt, &k);
    let z_i = respond_plus(&blinding.k_i, &c, &close_messages);
    let z_t = fr_add(&blinding.k_t, &fr_mul(&c, &blinding.t));
    proof {
        let before = pt;
        assert(challenge_value(before, k@) == challenge_value(
            PresentationToken { proof: Proof { z_i, z_t, c }, ..before },
            k@,
        ));
    }
    pt.proof = Proof { z_i, z_t, c };
    proof {
        assert(values(pt.proof.z_i@).len() == pt.proof.z_i@.len());
        assert(values(blinding.k_i@).len() == blinding.k_i@.len());
    }
    Ok(pt)
}

/// A proof for the signature that discloses the attributes at the given
/// indices, in any order, under fresh random scalars.
pub fn create_proof(
    pp: &PublicParameters,
    pk: &PublicKey,
    cred: &Signature,
    message_list: &Vec<Scalar>,
    reveal_index: &Vec<usize>,
) -> (r: Result<PresentationToken, Error>)
    ensures
        match r {
            Ok(pt) => exists|b: Blinding|
                prove_error(*pk, message_list@.len(), reveal_index@, b) is None && #[trigger] proves(
                    *pp,
                    *pk,
                    *cred,
                    message_list@,
                    reveal_index@,
                    b,
                    pt,
                ),
            Err(e) => if input_error(message_list@.len(), pk.pk_y@.len(), reveal_index@) is Some {
                e == Error::InvalidParameter
            } else {
                e == Error::RandomnessFailure
            },
        },
        r matches Ok(pt) ==> pt.reveal_index@.len() == reveal_index@.len() && pt.proof.z_i@.len() + reveal_index@.len()
            == message_list@.len(),
{
    let message_len = message_list.len();
    if !check_inputs(message_len, pk.pk_y.len(), reveal_index) {
        return Err(Error::InvalidParameter);
    }
    let close_index = hidden_indices(reveal_index, message_len);
    let r = match Scalar::random_nonzero() {
        Ok(s) => s,
        Err(e) => {
            return Err(e);
        },
    };
    let blinding = Blinding {
        r,
        t: Scalar::random(),
        k_i: random_scalars(close_index.len()),
        k_t: Scalar::random(),
    };
    create_proof_with(pp, pk, cred, message_list, reveal_index, &blinding)
}

/// Checks a proof under the signer's public key.
pub fn verify_proof(pp: &PublicParameters, pk: &PublicKey, pt: &PresentationToken) -> (r: Result<bool, Error>)
    ensures
        r == proof_outcome(*pp, *pk, *pt),
{
    let message_len = pt.len;
    if !check_disclosure(message_len, pk.pk_y.len(), &pt.reveal_index) {
        return Err(Error::InvalidParameter);
    }
    if pt.open_messages.len() != pt.reveal_index.len() {
        return Err(Error::InvalidParameter);
    }
    let close_index = hidden_indices(&pt.reveal_index, message_len);
    if pt.proof.z_i.len() != close_index.len() {
        return Err(Error::InvalidParameter);
    }
    if pt.sigma1.is_identity() {
        return Err(Error::InvalidParameter);
    }
    let minus_c = fr_neg(&pt.proof.c);
    let minus_one = fr_neg(&Scalar::from_u64(1));
    let minus_x = g2_scale(&pk.pk_x, &minus_one);
    let minus_m = negate_all(&pt.open_messages);
    let t_sum = g2_combine_at(&minus_x, &pk.pk_y, &pt.reveal_index, &minus_m);
    let t_input = g2_scale(&t_sum, &minus_c);
    let t_head = pair(&pt.sigma2, &g2_scale(&pp.g2, &minus_c));
    let t = gt_add(&t_head, &pair(&pt.sigma1, &t_input));
    let start = g2_scale(&pp.g2, &pt.proof.z_t);
    let k_input = g2_combine_at(&start, &pk.pk_y, &close_index, &pt.proof.z_i);
    let k = gt_add(&t, &pair(&pt.sigma1, &k_input));
    let c_calculated = challenge(pt, &k);
    if !c_calculated.same(&pt.proof.c) {
        return Err(Error::ProofVerificationFailed(ProofCheck::Challenge));
    }
    Ok(true)
}

/// Under the laws of a bilinear group, the key that a verifier folds from
/// the public points is the generator times the same fold of the secrets.
pub proof fn lemma_public_sum(g2: Seq<u8>, x: nat, y: Seq<nat>, m: Seq<nat>, n: nat)
    requires
        group_laws(),
        is_g2(g2),
        x < modulus(),
        n <= y.len(),
    ensures
        g2_lincomb(g2_mul(g2, x), public_points(g2, y), m, n) == g2_mul(g2, fr_sum(x, dot(y, m, n))),
    decreases n,
{
    if n == 0 {
        lemma_fr_small(x);
    } else {
        let before = (n - 1) as nat;
        let term = fr_prod(y[n - 1], m[n - 1]);
        lemma_public_sum(g2, x, y, m, before);
        law_g2_mul_mul(g2, y[n - 1], m[n - 1]);
        law_g2_mul_add(g2, fr_sum(x, dot(y, m, before)), term);
        lemma_fr_sum_assoc(x, dot(y, m, before), term);
    }
}

/// Under the laws of a bilinear group, what a verifier folds from an honest
/// proof in the second group is what the holder committed to.
pub proof fn lemma_fold_recomputed(
    g2: Seq<u8>,
    gx: Seq<u8>,
    keys: Seq<Seq<u8>>,
    m: Seq<nat>,
    reveal: Seq<usize>,
    t: nat,
    k_t: nat,
    k_i: Seq<nat>,
    c: nat,
)
    requires
        group_laws(),
        is_g2(g2),
        is_g2(gx),
        all_g2(keys),
        m.len() <= keys.len(),
        m.len() <= usize::MAX,
        increasing_below(reveal, m.len()),
        k_i.len() == hidden(reveal, m.len()).len(),
        c < modulus(),
    ensures
        ({
            let zero = g2_mul(g2, 0);
            let hide = hidden(reveal, m.len());
            let minus_c = fr_opp(c);
            let all = g2_lincomb(zero, keys, m, m.len());
            g2_sum(
                g2_sum(
                    g2_sum(
                        g2_sum(g2_mul(gx, minus_c), g2_mul(all, minus_c)),
                        g2_mul(g2, fr_prod(minus_c, t)),
                    ),
                    g2_mul(
                        g2_lincomb_at(
                            g2_mul(gx, fr_opp(1)),
                            keys,
                            reveal,
                            negated(selected(m, reveal)),
                            reveal.len(),
                        ),
                        minus_c,
                    ),
                ),
                g2_lincomb_at(
                    g2_mul(g2, fr_sum(k_t, fr_prod(c, t))),
                    keys,
                    hide,
                    masked_plus(k_i, c, selected(m, hide)),
                    hide.len(),
                ),
            ) == g2_lincomb_at(g2_mul(g2, k_t), keys, hide, k_i, hide.len())
        }),
{
    let n = m.len();
    let zero = g2_mul(g2, 0);
    let hide = hidden(reveal, n);
    let minus_c = fr_opp(c);
    let all = g2_lincomb(zero, keys, m, n);
    let weights = scaled(m, minus_c);
    let minus_shown = negated(selected(m, reveal));
    let responses = masked_plus(k_i, c, selected(m, hide));
    let challenged = Seq::new(hide.len(), |j: int| fr_prod(c, m[hide[j] as int]));
    lemma_hidden_members(reveal, n);
    assert forall|k: int| 0 <= k < hide.len() implies hide[k] < n by {
        assert(hide.contains(hide[k]));
    }
    law_g2_mul(g2, 0);
    lemma_g2_lincomb_valid(zero, keys, m, n);
    // the ten points
    let a1 = g2_mul(gx, minus_c);
    let a2 = g2_lincomb_at(zero, keys, reveal, selected(weights, reveal), reveal.len());
    let a3 = g2_lincomb_at(zero, keys, hide, selected(weights, hide), hide.len());
    let a4 = g2_mul(g2, fr_prod(minus_c, t));
    let b1 = g2_mul(gx, c);
    let b2 = g2_lincomb_at(zero, keys, reveal, scaled(minus_shown, minus_c), reveal.len());
    let c1 = g2_mul(g2, k_t);
    let c2 = g2_mul(g2, fr_prod(c, t));
    let c3 = g2_lincomb_at(zero, keys, hide, k_i, hide.len());
    let c4 = g2_lincomb_at(zero, keys, hide, challenged, hide.len());
    law_g2_mul(gx, minus_c);
    law_g2_mul(g2, fr_prod(minus_c, t));
    law_g2_mul(gx, c);
    law_g2_mul(g2, k_t);
    law_g2_mul(g2, fr_prod(c, t));
    lemma_g2_lincomb_at_valid(zero, keys, reveal, selected(weights, reveal), reveal.len());
    lemma_g2_lincomb_at_valid(zero, keys, hide, selected(weights, hide), hide.len());
    lemma_g2_lincomb_at_valid(zero, keys, reveal, scaled(minus_shown, minus_c), reveal.len());
    lemma_g2_lincomb_at_valid(zero, keys, hide, k_i, hide.len());
    lemma_g2_lincomb_at_valid(zero, keys, hide, challenged, hide.len());
    // all * -c = a2 + a3
    lemma_g2_lincomb_scale(g2, keys, m, minus_c, n);
    lemma_g2_partition(g2, keys, weights, reveal, n);
    assert(g2_mul(all, minus_c) == g2_sum(a2, a3));
    // the disclosed part, scaled: (gx * -1 + shown) * -c = b1 + b2
    let shown = g2_lincomb_at(zero, keys, reveal, minus_shown, reveal.len());
    lemma_g2_lincomb_at_valid(zero, keys, reveal, minus_shown, reveal.len());
    law_g2_mul(gx, fr_opp(1));
    lemma_g2_lincomb_at_from(g2_mul(gx, fr_opp(1)), g2, keys, reveal, minus_shown, reveal.len());
    law_g2_add_mul(g2_mul(gx, fr_opp(1)), shown, minus_c);
    law_g2_mul_mul(gx, fr_opp(1), minus_c);
    assert(fr_prod(fr_opp(1), minus_c) == c) by {
        lemma_fr_prod_opp(minus_c, 1);
        lemma_fr_basics(c, 0);
        lemma_fr_small(minus_c);
        lemma_fr_opp_opp(c);
    }
    lemma_g2_lincomb_at_scale(g2, keys, reveal, minus_shown, minus_c, reveal.len());
    // the hidden part: g2 * z_t + responses = (c1 + c2) + (c3 + c4)
    law_g2_mul_add(g2, k_t, fr_prod(c, t));
    law_g2_mul(g2, fr_sum(k_t, fr_prod(c, t)));
    lemma_g2_lincomb_at_from(g2_mul(g2, fr_sum(k_t, fr_prod(c, t))), g2, keys, hide, responses, hide.len());
    assert forall|j: int| 0 <= j < hide.len() implies responses[j] == fr_sum(k_i[j], challenged[j]) by {}
    lemma_g2_lincomb_at_add(g2, keys, hide, responses, k_i, challenged, hide.len());
    // the four pairs that cancel
    assert(g2_sum(a1, b1) == g2_mul(gx, 0)) by {
        law_g2_mul_add(gx, minus_c, c);
        lemma_fr_opp_cancels(c);
    }
    assert(g2_sum(a4, c2) == zero) by {
        law_g2_mul_add(g2, fr_prod(minus_c, t), fr_prod(c, t));
        lemma_fr_prod_opp(t, c);
        lemma_fr_basics(t, c);
        lemma_fr_opp_cancels(fr_prod(c, t));
    }
    let nothing_shown = Seq::new(reveal.len(), |j: int| 0nat);
    assert forall|j: int| 0 <= j < reveal.len() implies nothing_shown[j] == fr_sum(
        selected(weights, reveal)[j],
        scaled(minus_shown, minus_c)[j],
    ) by {
        let a = m[reveal[j] as int];
        assert(reveal[j] < n);
        lemma_fr_prod_opp(minus_c, a);
        lemma_fr_basics(a, minus_c);
        lemma_fr_opp_cancels(fr_prod(a, minus_c));
    }
    lemma_g2_lincomb_at_add(
        g2,
        keys,
        reveal,
        nothing_shown,
        selected(weights, reveal),
        scaled(minus_shown, minus_c),
        reveal.len(),
    );
    lemma_g2_lincomb_at_zero(g2, keys, reveal, nothing_shown, reveal.len());
    let nothing_hidden = Seq::new(hide.len(), |j: int| 0nat);
    assert forall|j: int| 0 <= j < hide.len() implies nothing_hidden[j] == fr_sum(
        selected(weights, hide)[j],
        challenged[j],
    ) by {
        let a = m[hide[j] as int];
        assert(hide[j] < n);
        lemma_fr_prod_opp(a, c);
        lemma_fr_basics(a, c);
        lemma_fr_opp_cancels(fr_prod(a, c));
    }
    lemma_g2_lincomb_at_add(g2, keys, hide, nothing_hidden, selected(weights, hide), challenged, hide.len());
    lemma_g2_lincomb_at_zero(g2, keys, hide, nothing_hidden, hide.len());
    lemma_g2_four_pairs_cancel(a1, a2, a3, a4, b1, b2, c1, c2, c3, c4, gx, g2, g2, g2);
    lemma_g2_lincomb_at_from(c1, g2, keys, hide, k_i, hide.len());
}

/// Under the laws of a bilinear group, the proof that an honest holder of a
/// signature makes is accepted under the signer's public key.
pub proof fn lemma_honest_proof_verifies(
    pp: PublicParameters,
    pair: KeyPair,
    nonce: nat,
    cred: Signature,
    m: Seq<Scalar>,
    reveal: Seq<usize>,
    b: Blinding,
    pt: PresentationToken,
)
    requires
        group_laws(),
        is_g1(pp.g1@),
        !g1_is_identity(pp.g1@),
        is_g2(pp.g2@),
        pair.sk.x@ < modulus(),
        0 < nonce < modulus(),
        b.r@ < modulus(),
        b.t@ < modulus(),
        b.k_t@ < modulus(),
        pt.proof.c@ < modulus(),
        pair.pk.pk_y@.len() <= usize::MAX,
        key_pair_of(pp, pair),
        signs(pp, pair.sk, values(m), nonce, cred),
        prove_error(pair.pk, m.len(), reveal, b) is None,
        proves(pp, pair.pk, cred, m, reveal, b, pt),
    ensures
        proof_outcome(pp, pair.pk, pt) == Ok::<bool, Error>(true),
{
    let g1 = pp.g1@;
    let g2 = pp.g2@;
    let y = values(pair.sk.y@);
    let keys = g2_views(pair.pk.pk_y@);
    let n = m.len();
    lemma_disclosed(reveal, n);
    let reveal = disclosed(reveal, n);
    let mv = values(m);
    let hide = hidden(reveal, n);
    let c = pt.proof.c@;
    let minus_c = fr_opp(c);
    let x = pair.sk.x@;
    let gx = g2_mul(g2, x);
    let zero = g2_mul(g2, 0);
    let w = fr_sum(x, dot(y, mv, n));
    let wt = fr_sum(w, b.t@);
    let sigma1 = pt.sigma1@;
    assert(mv.len() == n);
    assert(keys.len() == pair.pk.pk_y@.len());
    assert(y.len() == pair.sk.y@.len());
    assert(all_g2(keys)) by {
        assert forall|i: int| 0 <= i < keys.len() implies is_g2(#[trigger] keys[i]) by {
            law_g2_mul(g2, y[i]);
        }
    }
    lemma_fr_basics(x, dot(y, mv, n));
    lemma_fr_basics(w, b.t@);
    // the shape of the proof
    lemma_hidden_members(reveal, n);
    assert forall|k: int| 0 <= k < hide.len() implies hide[k] < n by {
        assert(hide.contains(hide[k]));
    }
    lemma_values_selected(m, reveal);
    lemma_values_selected(m, hide);
    assert(values(pt.proof.z_i@).len() == pt.proof.z_i@.len());
    assert(values(b.k_i@).len() == b.k_i@.len());
    assert(values(pt.open_messages@).len() == pt.open_messages@.len());
    law_g1_mul(g1, nonce);
    law_g1_mul_mul(g1, nonce, b.r@);
    lemma_fr_units(nonce, b.r@);
    law_g1_identity(g1, fr_prod(nonce, b.r@));
    law_g1_mul(g1, fr_prod(nonce, b.r@));
    // sigma2' = sigma1' * (w + t)
    law_g1_mul_mul(g1, nonce, w);
    law_g1_mul(cred.sigma1@, w);
    law_g1_mul(cred.sigma1@, b.t@);
    law_g1_mul_add(cred.sigma1@, w, b.t@);
    law_g1_mul_mul(cred.sigma1@, wt, b.r@);
    law_g1_mul_mul(cred.sigma1@, b.r@, wt);
    lemma_fr_basics(wt, b.r@);
    assert(pt.sigma2@ == g1_mul(sigma1, wt));
    // e(sigma2', g2 * -c) = e(sigma1', g2 * (-c * (w + t)))
    law_g2_mul(g2, minus_c);
    law_pairing_scalar(sigma1, g2_mul(g2, minus_c), wt);
    law_g2_mul_mul(g2, minus_c, wt);
    // g2 * (-c * (w + t)) = (gx * -c + all * -c) + g2 * (-c * t)
    let all = g2_lincomb(zero, keys, mv, n);
    law_g2_mul(g2, 0);
    law_g2_mul(g2, x);
    lemma_g2_lincomb_valid(zero, keys, mv, n);
    lemma_public_sum(g2, x, y, mv, n);
    lemma_g2_lincomb_from(gx, g2, keys, mv, n);
    lemma_fr_distributes(minus_c, w, b.t@);
    law_g2_mul_add(g2, fr_prod(minus_c, w), fr_prod(minus_c, b.t@));
    law_g2_mul_mul(g2, w, minus_c);
    lemma_fr_basics(w, minus_c);
    law_g2_add_mul(gx, all, minus_c);
    let q0 = g2_sum(g2_sum(g2_mul(gx, minus_c), g2_mul(all, minus_c)), g2_mul(g2, fr_prod(minus_c, b.t@)));
    assert(g2_mul(g2, fr_prod(minus_c, wt)) == q0);
    // the three pairings with sigma1' are one
    let disclosed = g2_mul(
        g2_lincomb_at(g2_mul(gx, fr_opp(1)), keys, reveal, negated(selected(mv, reveal)), reveal.len()),
        minus_c,
    );
    let hidden_part = g2_lincomb_at(
        g2_mul(g2, fr_sum(b.k_t@, fr_prod(c, b.t@))),
        keys,
        hide,
        masked_plus(values(b.k_i@), c, selected(mv, hide)),
        hide.len(),
    );
    law_g2_mul(gx, minus_c);
    law_g2_mul(all, minus_c);
    law_g2_mul(g2, fr_prod(minus_c, b.t@));
    law_g2_sum(g2_mul(gx, minus_c), g2_mul(all, minus_c));
    law_g2_sum(g2_sum(g2_mul(gx, minus_c), g2_mul(all, minus_c)), g2_mul(g2, fr_prod(minus_c, b.t@)));
    law_g2_mul(gx, fr_opp(1));
    lemma_g2_lincomb_at_valid(
        g2_mul(gx, fr_opp(1)),
        keys,
        reveal,
        negated(selected(mv, reveal)),
        reveal.len(),
    );
    law_g2_mul(
        g2_lincomb_at(g2_mul(gx, fr_opp(1)), keys, reveal, negated(selected(mv, reveal)), reveal.len()),
        minus_c,
    );
    law_g2_mul(g2, fr_sum(b.k_t@, fr_prod(c, b.t@)));
    lemma_g2_lincomb_at_valid(
        g2_mul(g2, fr_sum(b.k_t@, fr_prod(c, b.t@))),
        keys,
        hide,
        masked_plus(values(b.k_i@), c, selected(mv, hide)),
        hide.len(),
    );
    law_g2_sum(q0, disclosed);
    law_pairing_right(sigma1, q0, disclosed);
    law_pairing_right(sigma1, g2_sum(q0, disclosed), hidden_part);
    lemma_fold_recomputed(g2, gx, keys, mv, reveal, b.t@, b.k_t@, values(b.k_i@), c);
}

/// Under the laws of a bilinear group, a signature made with a secret key
/// is accepted under the public key of that secret key.
pub proof fn lemma_signature_verifies(pp: PublicParameters, pair: KeyPair, m: Seq<nat>, r: nat, sig: Signature)
    requires
        group_laws(),
        is_g1(pp.g1@),
        is_g2(pp.g2@),
        pair.sk.x@ < modulus(),
        key_pair_of(pp, pair),
        sign_error(pair.sk, m.len(), r) is None,
        signs(pp, pair.sk, m, r, sig),
    ensures
        verify_outcome(pp, pair.pk, sig, m) == Ok::<bool, Error>(true),
{
    let g1 = pp.g1@;
    let g2 = pp.g2@;
    let y = values(pair.sk.y@);
    let t = fr_sum(pair.sk.x@, dot(y, m, m.len()));
    assert(g2_views(pair.pk.pk_y@).len() == pair.pk.pk_y@.len());
    assert(y.len() == pair.sk.y@.len());
    lemma_public_sum(g2, pair.sk.x@, y, m, m.len());
    law_g2_mul(g2, t);
    law_pairing_scalar(g1, g2, fr_prod(r, t));
    law_pairing_scalar(g1, g2_mul(g2, t), r);
    law_g2_mul_mul(g2, t, r);
    lemma_fr_basics(r, t);
}

/// Whether two proofs hold the same elements, each list in the same order.
pub open spec fn same_proof(first: PresentationToken, second: PresentationToken) -> bool {
    &&& first.sigma1 == second.sigma1
    &&& first.sigma2 == second.sigma2
    &&& first.proof.z_i@ == second.proof.z_i@
    &&& first.proof.z_t == second.proof.z_t
    &&& first.proof.c == second.proof.c
    &&& first.len == second.len
    &&& first.open_messages@ == second.open_messages@
    &&& first.reveal_index@ == second.reveal_index@
}

/// The random scalars determine the proof: two proofs that the same
/// scalars give for the same request hold the same elements.
pub proof fn lemma_proof_determined(
    pp: PublicParameters,
    pk: PublicKey,
    cred: Signature,
    m: Seq<Scalar>,
    reveal: Seq<usize>,
    b: Blinding,
    first: PresentationToken,
    second: PresentationToken,
)
    requires
        proves(pp, pk, cred, m, reveal, b, first),
        proves(pp, pk, cred, m, reveal, b, second),
    ensures
        same_proof(first, second),
{
    crate::group::lemma_g1_determined(first.sigma1, second.sigma1);
    crate::group::lemma_g1_determined(first.sigma2, second.sigma2);
    crate::linear::lemma_scalars_determined(first.open_messages@, second.open_messages@);
    crate::scalar::lemma_scalar_determined(first.proof.c, second.proof.c);
    crate::scalar::lemma_scalar_determined(first.proof.z_t, second.proof.z_t);
    crate::linear::lemma_scalars_determined(first.proof.z_i@, second.proof.z_i@);
}

} // verus!
